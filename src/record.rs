//! The record format: one line of space-separated text tokens per event,
//! ended by a newline, so that records appended to a stream stay separable.
use crate::text::{
    all_free_of, dec, free_of, hex, join, lemma_dec_digits, lemma_hex_chars, lemma_hex_index,
    lemma_hex_len, lemma_join_injective, lemma_join_push, parse_dec, parse_hex, push_dec,
    push_hex, same_bytes, split,
};
use vstd::prelude::*;

verus! {

pub const SPACE: u8 = 32;

pub const NEWLINE: u8 = 10;

/// What is written for one event, with plain values only: the opaque payloads
/// of a transaction stand here as the text that describes them.
pub enum Record {
    Acc {
        pubkey: Vec<u8>,
        lamports: u64,
        owner: Vec<u8>,
        executable: bool,
        rent_epoch: u64,
        data: Vec<u8>,
        write_version: u64,
        txn_signature: Option<Vec<u8>>,
        slot: u64,
        is_startup: bool,
    },
    Tx {
        slot: u64,
        signature: Vec<u8>,
        is_vote: bool,
        transaction: Vec<u8>,
        transaction_status_meta: Vec<u8>,
        index: Option<u64>,
    },
}

/// The mathematical value of a `Record`.
pub enum RecordView {
    Acc {
        pubkey: Seq<u8>,
        lamports: u64,
        owner: Seq<u8>,
        executable: bool,
        rent_epoch: u64,
        data: Seq<u8>,
        write_version: u64,
        txn_signature: Option<Seq<u8>>,
        slot: u64,
        is_startup: bool,
    },
    Tx {
        slot: u64,
        signature: Seq<u8>,
        is_vote: bool,
        transaction: Seq<u8>,
        transaction_status_meta: Seq<u8>,
        index: Option<u64>,
    },
}

pub open spec fn opt_view(o: Option<Vec<u8>>) -> Option<Seq<u8>> {
    match o {
        Some(v) => Some(v@),
        None => None,
    }
}

impl View for Record {
    type V = RecordView;

    open spec fn view(&self) -> RecordView {
        match self {
            Record::Acc {
                pubkey,
                lamports,
                owner,
                executable,
                rent_epoch,
                data,
                write_version,
                txn_signature,
                slot,
                is_startup,
            } => RecordView::Acc {
                pubkey: pubkey@,
                lamports: *lamports,
                owner: owner@,
                executable: *executable,
                rent_epoch: *rent_epoch,
                data: data@,
                write_version: *write_version,
                txn_signature: opt_view(*txn_signature),
                slot: *slot,
                is_startup: *is_startup,
            },
            Record::Tx { slot, signature, is_vote, transaction, transaction_status_meta, index } =>
                RecordView::Tx {
                slot: *slot,
                signature: signature@,
                is_vote: *is_vote,
                transaction: transaction@,
                transaction_status_meta: transaction_status_meta@,
                index: *index,
            },
        }
    }
}

pub open spec fn acc_tag() -> Seq<u8> {
    seq![97u8, 99u8, 99u8]
}

pub open spec fn tx_tag() -> Seq<u8> {
    seq![116u8, 120u8]
}

/// `true` or `false`.
pub open spec fn flag(b: bool) -> Seq<u8> {
    if b {
        seq![116u8, 114u8, 117u8, 101u8]
    } else {
        seq![102u8, 97u8, 108u8, 115u8, 101u8]
    }
}

/// An absent value is written `-`.
pub open spec fn opt_hex(o: Option<Seq<u8>>) -> Seq<u8> {
    match o {
        Some(b) => hex(b),
        None => seq![45u8],
    }
}

pub open spec fn opt_dec(o: Option<u64>) -> Seq<u8> {
    match o {
        Some(n) => dec(n as nat),
        None => seq![45u8],
    }
}

/// The tokens of a record, in the order in which they are written.
pub open spec fn tokens(r: RecordView) -> Seq<Seq<u8>> {
    match r {
        RecordView::Acc {
            pubkey,
            lamports,
            owner,
            executable,
            rent_epoch,
            data,
            write_version,
            txn_signature,
            slot,
            is_startup,
        } => seq![
            acc_tag(),
            hex(pubkey),
            dec(lamports as nat),
            hex(owner),
            flag(executable),
            dec(rent_epoch as nat),
            hex(data),
            dec(write_version as nat),
            opt_hex(txn_signature),
            dec(slot as nat),
            flag(is_startup),
        ],
        RecordView::Tx { slot, signature, is_vote, transaction, transaction_status_meta, index } =>
            seq![
            tx_tag(),
            dec(slot as nat),
            hex(signature),
            flag(is_vote),
            hex(transaction),
            hex(transaction_status_meta),
            opt_dec(index),
        ],
    }
}

/// The text of a record, without its newline.
pub open spec fn line(r: RecordView) -> Seq<u8> {
    join(tokens(r), SPACE)
}

/// The bytes appended to a stream for one record.
pub open spec fn encoding(r: RecordView) -> Seq<u8> {
    line(r).push(NEWLINE)
}

/// A stream holding the records `rs`, each followed by a newline.
pub open spec fn stream(rs: Seq<RecordView>) -> Seq<u8> {
    join(rs.map_values(|r: RecordView| line(r)).push(Seq::empty()), NEWLINE)
}

pub open spec fn views(v: Seq<Record>) -> Seq<RecordView> {
    v.map_values(|r: Record| r@)
}

proof fn lemma_hex_injective(a: Seq<u8>, b: Seq<u8>)
    requires
        hex(a) == hex(b),
    ensures
        a == b,
{
    lemma_hex_len(a);
    lemma_hex_len(b);
    assert forall|k: int| 0 <= k < a.len() implies a[k] == b[k] by {
        lemma_hex_index(a, k);
        lemma_hex_index(b, k);
        let (x, y) = (a[k], b[k]);
        assert(hex_pair_value(hex(a)[2 * k], hex(a)[2 * k + 1]) == x);
        assert(hex_pair_value(hex(b)[2 * k], hex(b)[2 * k + 1]) == y);
    }
    assert(a =~= b);
}

spec fn hex_pair_value(h: u8, l: u8) -> int {
    crate::text::hex_value(h).unwrap() * 16 + crate::text::hex_value(l).unwrap()
}

proof fn lemma_dec_injective(a: nat, b: nat)
    requires
        dec(a) == dec(b),
    ensures
        a == b,
{
    lemma_dec_digits(a);
    lemma_dec_digits(b);
}

proof fn lemma_dec_free(n: nat, c: u8)
    requires
        !(48 <= c <= 57),
    ensures
        free_of(dec(n), c),
{
    lemma_dec_digits(n);
}

proof fn lemma_tokens_free(r: RecordView)
    ensures
        all_free_of(tokens(r), SPACE),
        all_free_of(tokens(r), NEWLINE),
        tokens(r).len() > 0,
{
    match r {
        RecordView::Acc {
            pubkey,
            lamports,
            owner,
            executable,
            rent_epoch,
            data,
            write_version,
            txn_signature,
            slot,
            is_startup,
        } => {
            lemma_hex_chars(pubkey, SPACE);
            lemma_hex_chars(pubkey, NEWLINE);
            lemma_hex_chars(owner, SPACE);
            lemma_hex_chars(owner, NEWLINE);
            lemma_hex_chars(data, SPACE);
            lemma_hex_chars(data, NEWLINE);
            if let Some(s) = txn_signature {
                lemma_hex_chars(s, SPACE);
                lemma_hex_chars(s, NEWLINE);
            }
            lemma_dec_free(lamports as nat, SPACE);
            lemma_dec_free(lamports as nat, NEWLINE);
            lemma_dec_free(rent_epoch as nat, SPACE);
            lemma_dec_free(rent_epoch as nat, NEWLINE);
            lemma_dec_free(write_version as nat, SPACE);
            lemma_dec_free(write_version as nat, NEWLINE);
            lemma_dec_free(slot as nat, SPACE);
            lemma_dec_free(slot as nat, NEWLINE);
        },
        RecordView::Tx { slot, signature, is_vote, transaction, transaction_status_meta, index } => {
            lemma_hex_chars(signature, SPACE);
            lemma_hex_chars(signature, NEWLINE);
            lemma_hex_chars(transaction, SPACE);
            lemma_hex_chars(transaction, NEWLINE);
            lemma_hex_chars(transaction_status_meta, SPACE);
            lemma_hex_chars(transaction_status_meta, NEWLINE);
            lemma_dec_free(slot as nat, SPACE);
            lemma_dec_free(slot as nat, NEWLINE);
            if let Some(n) = index {
                lemma_dec_free(n as nat, SPACE);
                lemma_dec_free(n as nat, NEWLINE);
            }
        },
    }
}

proof fn lemma_join_free(ts: Seq<Seq<u8>>, sep: u8, c: u8)
    requires
        all_free_of(ts, c),
        sep != c,
    ensures
        free_of(join(ts, sep), c),
    decreases ts.len(),
{
    if ts.len() > 1 {
        assert(all_free_of(ts.drop_last(), c)) by {
            assert forall|k: int| 0 <= k < ts.drop_last().len() implies free_of(
                #[trigger] ts.drop_last()[k],
                c,
            ) by {
                assert(ts.drop_last()[k] == ts[k]);
            }
        }
        lemma_join_free(ts.drop_last(), sep, c);
        assert(free_of(ts.last(), c));
    } else if ts.len() == 1 {
        assert(free_of(ts[0], c));
    }
}

proof fn lemma_line_free(r: RecordView)
    ensures
        free_of(line(r), NEWLINE),
{
    lemma_tokens_free(r);
    lemma_join_free(tokens(r), SPACE, NEWLINE);
}

proof fn lemma_lines_free(rs: Seq<RecordView>)
    ensures
        all_free_of(rs.map_values(|r: RecordView| line(r)).push(Seq::empty()), NEWLINE),
{
    let ls = rs.map_values(|r: RecordView| line(r)).push(Seq::empty());
    assert forall|k: int| 0 <= k < ls.len() implies free_of(#[trigger] ls[k], NEWLINE) by {
        if k < rs.len() {
            lemma_line_free(rs[k]);
        }
    }
}

/// Two records with the same text are the same record: reading a written
/// record back recovers every one of its fields.
pub proof fn lemma_record_round_trip(r: RecordView, q: RecordView)
    requires
        line(q) == line(r),
    ensures
        q == r,
{
    lemma_tokens_free(r);
    lemma_tokens_free(q);
    lemma_join_injective(tokens(q), tokens(r), SPACE);
    let (tq, tr) = (tokens(q), tokens(r));
    assert(tq.len() == tr.len());
    assert(tq[0] == tr[0]);
    match (q, r) {
        (RecordView::Acc { .. }, RecordView::Acc { .. }) => {
            lemma_hex_injective(q->Acc_pubkey, r->Acc_pubkey);
            lemma_hex_injective(q->Acc_owner, r->Acc_owner);
            lemma_hex_injective(q->Acc_data, r->Acc_data);
            lemma_dec_injective(q->Acc_lamports as nat, r->Acc_lamports as nat);
            lemma_dec_injective(q->Acc_rent_epoch as nat, r->Acc_rent_epoch as nat);
            lemma_dec_injective(q->Acc_write_version as nat, r->Acc_write_version as nat);
            lemma_dec_injective(q->Acc_slot as nat, r->Acc_slot as nat);
            assert(flag(q->Acc_executable) == flag(r->Acc_executable));
            assert(flag(q->Acc_is_startup) == flag(r->Acc_is_startup));
            assert(opt_hex(q->Acc_txn_signature) == opt_hex(r->Acc_txn_signature));
            match (q->Acc_txn_signature, r->Acc_txn_signature) {
                (Some(a), Some(b)) => lemma_hex_injective(a, b),
                (Some(a), None) => {
                    lemma_hex_len(a);
                },
                (None, Some(b)) => {
                    lemma_hex_len(b);
                },
                (None, None) => {},
            }
        },
        (RecordView::Tx { .. }, RecordView::Tx { .. }) => {
            lemma_hex_injective(q->Tx_signature, r->Tx_signature);
            lemma_hex_injective(q->Tx_transaction, r->Tx_transaction);
            lemma_hex_injective(q->Tx_transaction_status_meta, r->Tx_transaction_status_meta);
            lemma_dec_injective(q->Tx_slot as nat, r->Tx_slot as nat);
            assert(flag(q->Tx_is_vote) == flag(r->Tx_is_vote));
            assert(opt_dec(q->Tx_index) == opt_dec(r->Tx_index));
            match (q->Tx_index, r->Tx_index) {
                (Some(a), Some(b)) => lemma_dec_injective(a as nat, b as nat),
                (Some(a), None) => {
                    lemma_dec_digits(a as nat);
                    assert(dec(a as nat)[0] == 45u8);
                },
                (None, Some(b)) => {
                    lemma_dec_digits(b as nat);
                    assert(dec(b as nat)[0] == 45u8);
                },
                (None, None) => {},
            }
        },
        _ => {
            assert(tq.len() != tr.len());
        },
    }
}

/// The stream grows by one record's bytes when a record is appended.
pub proof fn lemma_stream_append(rs: Seq<RecordView>, r: RecordView)
    ensures
        stream(rs.push(r)) == stream(rs) + encoding(r),
        stream(Seq::<RecordView>::empty()) == Seq::<u8>::empty(),
{
    let ls = rs.map_values(|x: RecordView| line(x));
    let e = Seq::<u8>::empty();
    assert(rs.push(r).map_values(|x: RecordView| line(x)) =~= ls.push(line(r)));
    lemma_join_push(ls.push(line(r)), e, NEWLINE);
    if rs.len() == 0 {
        assert(join(ls.push(line(r)), NEWLINE) == line(r));
        assert(join(ls.push(e), NEWLINE) == e);
    } else {
        lemma_join_push(ls, line(r), NEWLINE);
        lemma_join_push(ls, e, NEWLINE);
    }
    assert(stream(rs.push(r)) =~= stream(rs) + encoding(r));
    assert(Seq::<RecordView>::empty().map_values(|x: RecordView| line(x)).push(e) =~= seq![e]);
}

/// A stream read back gives the records that were appended to it, as many
/// as were appended and in the order in which they were appended.
pub proof fn lemma_stream_round_trip(rs: Seq<RecordView>, qs: Seq<RecordView>)
    requires
        stream(qs) == stream(rs),
    ensures
        qs == rs,
{
    let lr = rs.map_values(|x: RecordView| line(x)).push(Seq::empty());
    let lq = qs.map_values(|x: RecordView| line(x)).push(Seq::empty());
    lemma_lines_free(rs);
    lemma_lines_free(qs);
    lemma_join_injective(lq, lr, NEWLINE);
    assert(qs.len() == rs.len());
    assert forall|k: int| 0 <= k < rs.len() implies qs[k] == rs[k] by {
        assert(lq[k] == lr[k]);
        lemma_record_round_trip(rs[k], qs[k]);
    }
    assert(qs =~= rs);
}

fn push_flag(out: &mut Vec<u8>, b: bool)
    ensures
        final(out)@ == old(out)@ + flag(b),
{
    if b {
        out.push(116);
        out.push(114);
        out.push(117);
        out.push(101);
    } else {
        out.push(102);
        out.push(97);
        out.push(108);
        out.push(115);
        out.push(101);
    }
    assert(final(out)@ =~= old(out)@ + flag(b));
}

fn parse_flag(t: &[u8]) -> (r: Option<bool>)
    ensures
        forall|b: bool| t@ == flag(b) ==> r == Some(b),
{
    if t.len() == 4 && t[0] == 116 && t[1] == 114 && t[2] == 117 && t[3] == 101 {
        Some(true)
    } else if t.len() == 5 && t[0] == 102 && t[1] == 97 && t[2] == 108 && t[3] == 115 && t[4]
        == 101 {
        Some(false)
    } else {
        None
    }
}

fn is_dash(t: &[u8]) -> (r: bool)
    ensures
        r == (t@ == seq![45u8]),
{
    let r = t.len() == 1 && t[0] == 45;
    proof {
        if r {
            assert(t@ =~= seq![45u8]);
        }
    }
    r
}

fn parse_opt_hex(t: &[u8]) -> (r: Option<Option<Vec<u8>>>)
    ensures
        forall|o: Option<Seq<u8>>| t@ == opt_hex(o) ==> (r matches Some(x) && opt_view(x) == o),
{
    if is_dash(t) {
        proof {
            assert forall|b: Seq<u8>| t@ != hex(b) by {
                lemma_hex_len(b);
            }
        }
        Some(None)
    } else {
        match parse_hex(t) {
            Some(v) => Some(Some(v)),
            None => None,
        }
    }
}

fn parse_opt_dec(t: &[u8]) -> (r: Option<Option<u64>>)
    ensures
        forall|o: Option<u64>| t@ == opt_dec(o) ==> r == Some(o),
{
    if is_dash(t) {
        proof {
            assert forall|n: u64| t@ != dec(n as nat) by {
                lemma_dec_digits(n as nat);
                if t@ == dec(n as nat) {
                    assert(crate::text::is_digit(dec(n as nat)[0]));
                }
            }
        }
        Some(None)
    } else {
        match parse_dec(t) {
            Some(v) => Some(Some(v)),
            None => None,
        }
    }
}

/// Appends a separator and then a token.
proof fn lemma_next_token(ts: Seq<Seq<u8>>, t: Seq<u8>, before: Seq<u8>, after: Seq<u8>)
    requires
        ts.len() > 0,
        before == join(ts, SPACE),
        after == before.push(SPACE) + t,
    ensures
        after == join(ts.push(t), SPACE),
{
    lemma_join_push(ts, t, SPACE);
    assert(before.push(SPACE) + t =~= before + seq![SPACE] + t);
}

impl Record {
    /// The text of the record, without its newline.
    pub fn encode_line(&self) -> (r: Vec<u8>)
        ensures
            r@ == line(self@),
    {
        let mut out: Vec<u8> = Vec::new();
        match self {
            Record::Acc {
                pubkey,
                lamports,
                owner,
                executable,
                rent_epoch,
                data,
                write_version,
                txn_signature,
                slot,
                is_startup,
            } => {
                out.push(97);
                out.push(99);
                out.push(99);
                let ghost mut ts: Seq<Seq<u8>> = seq![acc_tag()];
                proof {
                    assert(out@ =~= join(ts, SPACE));
                }
                let ghost mut b = out@;
                out.push(SPACE);
                push_hex(&mut out, pubkey.as_slice());
                proof {
                    lemma_next_token(ts, hex(pubkey@), b, out@);
                    ts = ts.push(hex(pubkey@));
                    b = out@;
                }
                out.push(SPACE);
                push_dec(&mut out, *lamports);
                proof {
                    lemma_next_token(ts, dec(*lamports as nat), b, out@);
                    ts = ts.push(dec(*lamports as nat));
                    b = out@;
                }
                out.push(SPACE);
                push_hex(&mut out, owner.as_slice());
                proof {
                    lemma_next_token(ts, hex(owner@), b, out@);
                    ts = ts.push(hex(owner@));
                    b = out@;
                }
                out.push(SPACE);
                push_flag(&mut out, *executable);
                proof {
                    lemma_next_token(ts, flag(*executable), b, out@);
                    ts = ts.push(flag(*executable));
                    b = out@;
                }
                out.push(SPACE);
                push_dec(&mut out, *rent_epoch);
                proof {
                    lemma_next_token(ts, dec(*rent_epoch as nat), b, out@);
                    ts = ts.push(dec(*rent_epoch as nat));
                    b = out@;
                }
                out.push(SPACE);
                push_hex(&mut out, data.as_slice());
                proof {
                    lemma_next_token(ts, hex(data@), b, out@);
                    ts = ts.push(hex(data@));
                    b = out@;
                }
                out.push(SPACE);
                push_dec(&mut out, *write_version);
                proof {
                    lemma_next_token(ts, dec(*write_version as nat), b, out@);
                    ts = ts.push(dec(*write_version as nat));
                    b = out@;
                }
                out.push(SPACE);
                match txn_signature {
                    Some(sig) => push_hex(&mut out, sig.as_slice()),
                    None => out.push(45),
                }
                proof {
                    assert(out@ =~= b.push(SPACE) + opt_hex(opt_view(*txn_signature)));
                    lemma_next_token(ts, opt_hex(opt_view(*txn_signature)), b, out@);
                    ts = ts.push(opt_hex(opt_view(*txn_signature)));
                    b = out@;
                }
                out.push(SPACE);
                push_dec(&mut out, *slot);
                proof {
                    lemma_next_token(ts, dec(*slot as nat), b, out@);
                    ts = ts.push(dec(*slot as nat));
                    b = out@;
                }
                out.push(SPACE);
                push_flag(&mut out, *is_startup);
                proof {
                    lemma_next_token(ts, flag(*is_startup), b, out@);
                    ts = ts.push(flag(*is_startup));
                    assert(ts =~= tokens(self@));
                }
            },
            Record::Tx { slot, signature, is_vote, transaction, transaction_status_meta, index } => {
                out.push(116);
                out.push(120);
                let ghost mut ts: Seq<Seq<u8>> = seq![tx_tag()];
                proof {
                    assert(out@ =~= join(ts, SPACE));
                }
                let ghost mut b = out@;
                out.push(SPACE);
                push_dec(&mut out, *slot);
                proof {
                    lemma_next_token(ts, dec(*slot as nat), b, out@);
                    ts = ts.push(dec(*slot as nat));
                    b = out@;
                }
                out.push(SPACE);
                push_hex(&mut out, signature.as_slice());
                proof {
                    lemma_next_token(ts, hex(signature@), b, out@);
                    ts = ts.push(hex(signature@));
                    b = out@;
                }
                out.push(SPACE);
                push_flag(&mut out, *is_vote);
                proof {
                    lemma_next_token(ts, flag(*is_vote), b, out@);
                    ts = ts.push(flag(*is_vote));
                    b = out@;
                }
                out.push(SPACE);
                push_hex(&mut out, transaction.as_slice());
                proof {
                    lemma_next_token(ts, hex(transaction@), b, out@);
                    ts = ts.push(hex(transaction@));
                    b = out@;
                }
                out.push(SPACE);
                push_hex(&mut out, transaction_status_meta.as_slice());
                proof {
                    lemma_next_token(ts, hex(transaction_status_meta@), b, out@);
                    ts = ts.push(hex(transaction_status_meta@));
                    b = out@;
                }
                out.push(SPACE);
                match index {
                    Some(n) => push_dec(&mut out, *n),
                    None => out.push(45),
                }
                proof {
                    assert(out@ =~= b.push(SPACE) + opt_dec(*index));
                    lemma_next_token(ts, opt_dec(*index), b, out@);
                    ts = ts.push(opt_dec(*index));
                    assert(ts =~= tokens(self@));
                }
            },
        }
        out
    }

    /// The bytes appended to a stream for this record: its text and a newline.
    pub fn encode(&self) -> (r: Vec<u8>)
        ensures
            r@ == encoding(self@),
    {
        let mut out = self.encode_line();
        out.push(NEWLINE);
        out
    }

    /// Reads one record's text (without its newline). `None` exactly when no
    /// record has this text.
    pub fn decode_line(s: &[u8]) -> (r: Option<Record>)
        ensures
            match r {
                Some(x) => line(x@) == s@,
                None => forall|q: RecordView| line(q) != s@,
            },
    {
        let toks = split(s, SPACE);
        let ghost pieces = toks@.map_values(|v: Vec<u8>| v@);
        proof {
            assert forall|q: RecordView| line(q) == s@ implies pieces == tokens(q) by {
                lemma_tokens_free(q);
                lemma_join_injective(pieces, tokens(q), SPACE);
            }
        }
        let cand: Option<Record> = if toks.len() == 11 {
            let p1 = parse_hex(toks[1].as_slice());
            let p2 = parse_dec(toks[2].as_slice());
            let p3 = parse_hex(toks[3].as_slice());
            let p4 = parse_flag(toks[4].as_slice());
            let p5 = parse_dec(toks[5].as_slice());
            let p6 = parse_hex(toks[6].as_slice());
            let p7 = parse_dec(toks[7].as_slice());
            let p8 = parse_opt_hex(toks[8].as_slice());
            let p9 = parse_dec(toks[9].as_slice());
            let p10 = parse_flag(toks[10].as_slice());
            match (p1, p2, p3, p4, p5, p6, p7, p8, p9, p10) {
                (
                    Some(pubkey),
                    Some(lamports),
                    Some(owner),
                    Some(executable),
                    Some(rent_epoch),
                    Some(data),
                    Some(write_version),
                    Some(txn_signature),
                    Some(slot),
                    Some(is_startup),
                ) => Some(
                    Record::Acc {
                        pubkey,
                        lamports,
                        owner,
                        executable,
                        rent_epoch,
                        data,
                        write_version,
                        txn_signature,
                        slot,
                        is_startup,
                    },
                ),
                _ => None,
            }
        } else if toks.len() == 7 {
            let p1 = parse_dec(toks[1].as_slice());
            let p2 = parse_hex(toks[2].as_slice());
            let p3 = parse_flag(toks[3].as_slice());
            let p4 = parse_hex(toks[4].as_slice());
            let p5 = parse_hex(toks[5].as_slice());
            let p6 = parse_opt_dec(toks[6].as_slice());
            match (p1, p2, p3, p4, p5, p6) {
                (
                    Some(slot),
                    Some(signature),
                    Some(is_vote),
                    Some(transaction),
                    Some(transaction_status_meta),
                    Some(index),
                ) => Some(
                    Record::Tx {
                        slot,
                        signature,
                        is_vote,
                        transaction,
                        transaction_status_meta,
                        index,
                    },
                ),
                _ => None,
            }
        } else {
            None
        };
        proof {
            assert forall|q: RecordView| line(q) == s@ implies (cand matches Some(c) && c@ == q) by {
                assert(pieces == tokens(q));
                assert(toks@[1]@ == pieces[1]);
                assert(toks@[2]@ == pieces[2]);
                assert(toks@[3]@ == pieces[3]);
                assert(toks@[4]@ == pieces[4]);
                assert(toks@[5]@ == pieces[5]);
                assert(toks@[6]@ == pieces[6]);
                if q is Acc {
                    assert(toks@[7]@ == pieces[7]);
                    assert(toks@[8]@ == pieces[8]);
                    assert(toks@[9]@ == pieces[9]);
                    assert(toks@[10]@ == pieces[10]);
                }
            }
        }
        match cand {
            Some(c) => {
                let text = c.encode_line();
                if same_bytes(text.as_slice(), s) {
                    Some(c)
                } else {
                    proof {
                        assert forall|q: RecordView| line(q) != s@ by {
                            if line(q) == s@ {
                                lemma_record_round_trip(q, c@);
                            }
                        }
                    }
                    None
                }
            },
            None => None,
        }
    }
}

/// Reads a stream back into its records. `None` exactly when the bytes are
/// no stream of records.
pub fn decode_stream(s: &[u8]) -> (r: Option<Vec<Record>>)
    ensures
        match r {
            Some(v) => stream(views(v@)) == s@,
            None => forall|rs: Seq<RecordView>| stream(rs) != s@,
        },
{
    let lines = split(s, NEWLINE);
    let ghost pieces = lines@.map_values(|v: Vec<u8>| v@);
    proof {
        assert forall|rs: Seq<RecordView>| stream(rs) == s@ implies pieces == rs.map_values(
            |x: RecordView| line(x),
        ).push(Seq::empty()) by {
            lemma_lines_free(rs);
            lemma_join_injective(
                pieces,
                rs.map_values(|x: RecordView| line(x)).push(Seq::empty()),
                NEWLINE,
            );
        }
    }
    let n = lines.len();
    if lines[n - 1].len() != 0 {
        proof {
            assert forall|rs: Seq<RecordView>| stream(rs) != s@ by {
                if stream(rs) == s@ {
                    assert(pieces[n - 1] == lines@[n - 1]@);
                }
            }
        }
        return None;
    }
    let mut out: Vec<Record> = Vec::new();
    let mut i: usize = 0;
    while i < n - 1
        invariant
            n == lines.len(),
            n > 0,
            i <= n - 1,
            pieces == lines@.map_values(|v: Vec<u8>| v@),
            out@.len() == i,
            forall|k: int| 0 <= k < i ==> line(#[trigger] out@[k]@) == pieces[k],
            forall|rs: Seq<RecordView>|
                stream(rs) == s@ ==> pieces == rs.map_values(|x: RecordView| line(x)).push(
                    Seq::empty(),
                ),
        decreases n - 1 - i,
    {
        match Record::decode_line(lines[i].as_slice()) {
            Some(rec) => {
                out.push(rec);
            },
            None => {
                proof {
                    assert forall|rs: Seq<RecordView>| stream(rs) != s@ by {
                        if stream(rs) == s@ {
                            assert(pieces[i as int] == line(rs[i as int]));
                        }
                    }
                }
                return None;
            },
        }
        i = i + 1;
    }
    proof {
        let vs = views(out@);
        assert(pieces[n - 1] == lines@[n - 1]@);
        assert(pieces[n - 1] =~= Seq::<u8>::empty());
        assert forall|k: int| 0 <= k < n - 1 implies #[trigger] pieces[k] == line(vs[k]) by {
            assert(line(out@[k]@) == pieces[k]);
        }
        assert(pieces =~= vs.map_values(|x: RecordView| line(x)).push(Seq::empty()));
    }
    Some(out)
}

pub open spec fn is_ascii(s: Seq<u8>) -> bool {
    forall|i: int| 0 <= i < s.len() ==> s[i] < 128
}

proof fn lemma_hex_ascii(b: Seq<u8>)
    ensures
        is_ascii(hex(b)),
{
    lemma_hex_len(b);
    assert forall|i: int| 0 <= i < hex(b).len() implies hex(b)[i] < 128 by {
        let k = i / 2;
        lemma_hex_index(b, k);
        if i % 2 == 0 {
            assert(i == 2 * k);
        } else {
            assert(i == 2 * k + 1);
        }
    }
}

proof fn lemma_join_ascii(ts: Seq<Seq<u8>>, sep: u8)
    requires
        forall|k: int| 0 <= k < ts.len() ==> is_ascii(#[trigger] ts[k]),
        sep < 128,
    ensures
        is_ascii(join(ts, sep)),
    decreases ts.len(),
{
    if ts.len() > 1 {
        assert forall|k: int| 0 <= k < ts.drop_last().len() implies is_ascii(
            #[trigger] ts.drop_last()[k],
        ) by {
            assert(ts.drop_last()[k] == ts[k]);
        }
        lemma_join_ascii(ts.drop_last(), sep);
        assert(is_ascii(ts.last()));
    } else if ts.len() == 1 {
        assert(is_ascii(ts[0]));
    }
}

/// A record is written in ASCII only.
pub proof fn lemma_encoding_ascii(r: RecordView)
    ensures
        is_ascii(encoding(r)),
{
    let ts = tokens(r);
    assert forall|k: int| 0 <= k < ts.len() implies is_ascii(#[trigger] ts[k]) by {
        match r {
            RecordView::Acc { pubkey, lamports, owner, rent_epoch, data, write_version, txn_signature, slot, .. } => {
                lemma_hex_ascii(pubkey);
                lemma_hex_ascii(owner);
                lemma_hex_ascii(data);
                if let Some(b) = txn_signature {
                    lemma_hex_ascii(b);
                }
                lemma_dec_digits(lamports as nat);
                lemma_dec_digits(rent_epoch as nat);
                lemma_dec_digits(write_version as nat);
                lemma_dec_digits(slot as nat);
            },
            RecordView::Tx { slot, signature, transaction, transaction_status_meta, index, .. } => {
                lemma_hex_ascii(signature);
                lemma_hex_ascii(transaction);
                lemma_hex_ascii(transaction_status_meta);
                lemma_dec_digits(slot as nat);
                if let Some(n) = index {
                    lemma_dec_digits(n as nat);
                }
            },
        }
    }
    lemma_join_ascii(ts, SPACE);
}

/// What the writer has appended to one stream after handling `rs` in order:
/// the account stream (`accounts`) or the transaction stream.
pub open spec fn written(rs: Seq<RecordView>, accounts: bool) -> Seq<u8>
    decreases rs.len(),
{
    if rs.len() == 0 {
        Seq::empty()
    } else if (rs.last() is Acc) == accounts {
        written(rs.drop_last(), accounts) + encoding(rs.last())
    } else {
        written(rs.drop_last(), accounts)
    }
}

pub open spec fn of_kind(rs: Seq<RecordView>, accounts: bool) -> Seq<RecordView> {
    rs.filter(|r: RecordView| (r is Acc) == accounts)
}

/// Each record goes to the stream of its kind, after the ones before it: a
/// stream holds exactly the records of its kind, in the order of handling.
pub proof fn lemma_per_kind_streams(rs: Seq<RecordView>, accounts: bool)
    ensures
        written(rs, accounts) == stream(of_kind(rs, accounts)),
    decreases rs.len(),
{
    reveal_with_fuel(Seq::filter, 1);
    if rs.len() == 0 {
        assert(of_kind(rs, accounts) =~= Seq::<RecordView>::empty());
        assert(stream(Seq::<RecordView>::empty()) =~= Seq::<u8>::empty());
    } else {
        lemma_stream_append(Seq::empty(), rs.last());
        lemma_per_kind_streams(rs.drop_last(), accounts);
        let f = |r: RecordView| (r is Acc) == accounts;
        assert(of_kind(rs, accounts) == if f(rs.last()) {
            of_kind(rs.drop_last(), accounts).push(rs.last())
        } else {
            of_kind(rs.drop_last(), accounts)
        });
        if f(rs.last()) {
            lemma_stream_append(of_kind(rs.drop_last(), accounts), rs.last());
        }
    }
}

/// Reading back a stream that the writer filled gives exactly the records of
/// that stream's kind, as many as were handled and in the order of handling.
pub proof fn lemma_written_reads_back(rs: Seq<RecordView>, accounts: bool, qs: Seq<RecordView>)
    requires
        stream(qs) == written(rs, accounts),
    ensures
        qs == of_kind(rs, accounts),
{
    lemma_per_kind_streams(rs, accounts);
    lemma_stream_round_trip(of_kind(rs, accounts), qs);
}

} // verus!
