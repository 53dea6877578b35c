use vstd::prelude::*;
use vstd::string::{StrSliceExecFns, StringExecFns};
use crate::envelope::{AkashicEnvelope, RecordModel};
use crate::chain::models;
use crate::numeral::{
    dec_digits, digit_val, digits_value, encode_u64, is_digit, lemma_canonical_digits,
    lemma_dec_digits_wf, lemma_digits_value_pos, lemma_digits_value_prefix, lemma_zero_digit,
};

verus! {

/// A number line of the snapshot text: canonical decimal, then a newline.
pub open spec fn num_enc(v: nat) -> Seq<char> {
    dec_digits(v) + seq!['\n']
}

/// A string field line: the decimal character count, a colon, the field's
/// characters, a newline.
pub open spec fn fld_enc(x: Seq<char>) -> Seq<char> {
    dec_digits(x.len()) + seq![':'] + x + seq!['\n']
}

/// One record: id and timestamp lines, then actor, payload, hash, previous
/// hash and signature field lines.
pub open spec fn rec_enc(m: RecordModel) -> Seq<char> {
    num_enc(m.id as nat) + num_enc(m.timestamp as nat) + fld_enc(m.actor) + fld_enc(m.payload)
        + fld_enc(m.hash) + fld_enc(m.prev_hash) + fld_enc(m.signature)
}

/// The records of a snapshot, in chain order.
pub open spec fn recs_enc(ms: Seq<RecordModel>) -> Seq<char>
    decreases ms.len(),
{
    if ms.len() == 0 {
        Seq::<char>::empty()
    } else {
        rec_enc(ms[0]) + recs_enc(ms.skip(1))
    }
}

/// A whole snapshot: the record count line, then the records.
pub open spec fn snapshot_enc(ms: Seq<RecordModel>) -> Seq<char> {
    num_enc(ms.len()) + recs_enc(ms)
}

/// Every string field is addressable by a length line.
pub open spec fn model_sizes_ok(m: RecordModel) -> bool {
    &&& m.actor.len() <= u64::MAX
    &&& m.payload.len() <= u64::MAX
    &&& m.hash.len() <= u64::MAX
    &&& m.prev_hash.len() <= u64::MAX
    &&& m.signature.len() <= u64::MAX
}

/// A record sequence that a snapshot text can carry.
pub open spec fn snap_ok(ms: Seq<RecordModel>) -> bool {
    &&& ms.len() <= u64::MAX
    &&& forall|i: int| 0 <= i < ms.len() ==> model_sizes_ok(#[trigger] ms[i])
}

/// A canonical decimal for `v` sits at `pos`, ended by a non-digit or the end
/// of the text.
pub open spec fn dec_at(t: Seq<char>, pos: int, v: u64) -> bool {
    let e = pos + dec_digits(v as nat).len();
    &&& 0 <= pos
    &&& e <= t.len()
    &&& t.subrange(pos, e) == dec_digits(v as nat)
    &&& (e == t.len() || !is_digit(t[e]))
}

/// A number line for `v` sits at `pos`.
pub open spec fn num_at(t: Seq<char>, pos: int, v: u64) -> bool {
    let e = pos + num_enc(v as nat).len();
    &&& 0 <= pos
    &&& e <= t.len()
    &&& t.subrange(pos, e) == num_enc(v as nat)
}

/// Reads the maximal digit run at `pos` as a canonical decimal: rejects an
/// empty run, a leading zero and a value over `u64::MAX`.
fn scan_u64(s: &str, n: usize, pos: usize) -> (r: Option<(u64, usize)>)
    requires
        n == s@.len(),
        pos <= n,
    ensures
        r matches Some(p) ==> {
            &&& pos < p.1 <= n
            &&& s@.subrange(pos as int, p.1 as int) == dec_digits(p.0 as nat)
            &&& (p.1 < n ==> !is_digit(s@[p.1 as int]))
        },
        forall|v: u64|
            dec_at(s@, pos as int, v) ==> r == Some::<(u64, usize)>(
                (v, (pos + dec_digits(v as nat).len()) as usize),
            ),
{
    let mut j = pos;
    let mut acc: u64 = 0;
    loop
        invariant
            n == s@.len(),
            pos <= j <= n,
            forall|k: int| pos <= k < j ==> is_digit(#[trigger] s@[k]),
            acc as nat == digits_value(s@.subrange(pos as int, j as int)),
            j - pos >= 2 ==> s@[pos as int] != '0',
        ensures
            pos <= j <= n,
            forall|k: int| pos <= k < j ==> is_digit(#[trigger] s@[k]),
            acc as nat == digits_value(s@.subrange(pos as int, j as int)),
            j - pos >= 2 ==> s@[pos as int] != '0',
            j == n || !is_digit(s@[j as int]),
        decreases n - j,
    {
        if j == n {
            break ;
        }
        let c = s.get_char(j);
        let cv = c as u32;
        if cv < 48 || cv > 57 {
            break ;
        }
        if j > pos && acc == 0 {
            // a leading zero followed by another digit is not canonical
            proof {
                let run = s@.subrange(pos as int, j as int);
                if j - pos >= 2 {
                    lemma_digits_value_pos(run);
                }
                assert(j - pos == 1);
                assert(run[0] == s@[pos as int]);
                assert(digit_val(s@[pos as int]) == 0);
                if s@[pos as int] != '0' {
                    lemma_zero_digit(s@[pos as int]);
                }
                assert(s@[pos as int] == '0');
                assert forall|v: u64| !dec_at(s@, pos as int, v) by {
                    if dec_at(s@, pos as int, v) {
                        lemma_dec_digits_wf(v as nat);
                        let d = dec_digits(v as nat);
                        assert(d[0] == s@.subrange(pos as int, pos + d.len())[0]);
                        assert(d[0] == '0');
                        assert(v == 0);
                        assert(d.len() == 1);
                        assert(is_digit(s@[pos + 1]));
                    }
                }
            }
            return None;
        }
        let d: u64 = (cv - 48) as u64;
        if acc > (u64::MAX - d) / 10 {
            // the run no longer fits a u64
            proof {
                let run = s@.subrange(pos as int, j as int);
                assert((u64::MAX - d) / 10 * 10 + 10 > u64::MAX - d) by (nonlinear_arith)
                    requires
                        d <= 9,
                ;
                assert(acc * 10 + d > u64::MAX) by (nonlinear_arith)
                    requires
                        acc > (u64::MAX - d) / 10,
                        (u64::MAX - d) / 10 * 10 + 10 > u64::MAX - d,
                        d <= 9,
                ;
                assert forall|v: u64| !dec_at(s@, pos as int, v) by {
                    if dec_at(s@, pos as int, v) {
                        lemma_dec_digits_wf(v as nat);
                        let dd = dec_digits(v as nat);
                        let e = pos + dd.len();
                        // the scanned run is a strict prefix of the rendering
                        assert(forall|k: int|
                            0 <= k < dd.len() ==> #[trigger] dd[k] == s@.subrange(
                                pos as int,
                                e as int,
                            )[k]);
                        if j >= e {
                            // the rendering would end at or before j, yet its
                            // terminator position carries a digit: every
                            // position below j is one, and so is j itself here
                            assert(e <= j < n);
                            assert(is_digit(s@[e as int]));
                            assert(false);
                        }
                        assert(j + 1 <= e);
                        let run1 = s@.subrange(pos as int, j + 1);
                        assert(run1 =~= dd.take(j + 1 - pos));
                        lemma_digits_value_prefix(dd, j + 1 - pos);
                        assert(run1.drop_last() =~= run);
                        assert(run1.last() == s@[j as int]);
                        assert(digits_value(run1) == acc * 10 + d);
                        assert(digits_value(dd) == v as nat);
                        assert(acc * 10 + d <= v);
                    }
                }
            }
            return None;
        }
        proof {
            let run = s@.subrange(pos as int, j as int);
            let run1 = s@.subrange(pos as int, j + 1);
            assert(run1.drop_last() =~= run);
            assert(run1.last() == s@[j as int]);
            assert(digit_val(s@[j as int]) == d);
            // a canonical run cannot grow past a leading zero: that case
            // returned above, so the leading digit is nonzero from length 2 on
            if j - pos == 1 && s@[pos as int] == '0' {
                assert(run =~= seq![s@[pos as int]]);
                assert(run.drop_last() =~= Seq::<char>::empty());
                assert(digits_value(Seq::<char>::empty()) == 0);
                assert(run.last() == s@[pos as int]);
                assert(digit_val(s@[pos as int]) == 0);
                assert(digits_value(run) == 0);
                assert(false);
            }
        }
        acc = acc * 10 + d;
        j = j + 1;
    }
    if j == pos {
        proof {
            assert forall|v: u64| !dec_at(s@, pos as int, v) by {
                if dec_at(s@, pos as int, v) {
                    lemma_dec_digits_wf(v as nat);
                    let dd = dec_digits(v as nat);
                    assert(dd[0] == s@.subrange(pos as int, pos + dd.len())[0]);
                    assert(is_digit(s@[pos as int]));
                }
            }
        }
        return None;
    }
    proof {
        let run = s@.subrange(pos as int, j as int);
        lemma_canonical_digits(run);
        assert forall|v: u64|
            dec_at(s@, pos as int, v) implies Some((acc, j)) == Some::<(u64, usize)>(
            (v, (pos + dec_digits(v as nat).len()) as usize),
        ) by {
            lemma_dec_digits_wf(v as nat);
            let dd = dec_digits(v as nat);
            let e = pos + dd.len();
            assert(forall|k: int|
                0 <= k < dd.len() ==> #[trigger] dd[k] == s@.subrange(pos as int, e as int)[k]);
            if j > e {
                assert(is_digit(s@[e as int]) || e == n);
                assert(false);
            }
            if j < e {
                assert(dd[j - pos] == s@[j as int]);
                assert(is_digit(s@[j as int]));
                assert(j < n);
                assert(false);
            }
            assert(run =~= dd);
            assert(acc as nat == v as nat);
        }
    }
    Some((acc, j))
}

/// A string field line for `x` sits at `pos`.
pub open spec fn fld_at(t: Seq<char>, pos: int, x: Seq<char>) -> bool {
    let e = pos + fld_enc(x).len();
    &&& 0 <= pos
    &&& x.len() <= u64::MAX
    &&& e <= t.len()
    &&& t.subrange(pos, e) == fld_enc(x)
}

/// A segment of a longer subrange equals its part of the concatenation.
pub proof fn lemma_parts_split(t: Seq<char>, pos: int, a: Seq<char>, b: Seq<char>)
    requires
        0 <= pos,
        pos + a.len() + b.len() <= t.len(),
        t.subrange(pos, pos + a.len() + b.len()) == a + b,
    ensures
        t.subrange(pos, pos + a.len()) == a,
        t.subrange(pos + a.len(), pos + a.len() + b.len()) == b,
{
    let w = t.subrange(pos, pos + a.len() + b.len());
    assert forall|k: int| 0 <= k < a.len() implies t.subrange(pos, pos + a.len())[k] == a[k] by {
        assert(w[k] == t[pos + k]);
        assert(w[k] == a[k]);
    }
    assert(t.subrange(pos, pos + a.len()) =~= a);
    assert forall|k: int|
        0 <= k < b.len() implies t.subrange(pos + a.len(), pos + a.len() + b.len())[k] == b[k] by {
        assert(w[a.len() + k] == t[pos + a.len() + k]);
        assert(w[a.len() + k] == b[k]);
    }
    assert(t.subrange(pos + a.len(), pos + a.len() + b.len()) =~= b);
}

/// Adjacent subranges join into the concatenation.
pub proof fn lemma_parts_join(t: Seq<char>, p0: int, p1: int, p2: int, a: Seq<char>, b: Seq<char>)
    requires
        0 <= p0 <= p1 <= p2 <= t.len(),
        t.subrange(p0, p1) == a,
        t.subrange(p1, p2) == b,
    ensures
        t.subrange(p0, p2) == a + b,
{
    assert(t.subrange(p0, p2) =~= a + b);
}

/// A number line yields a terminated canonical decimal.
proof fn lemma_num_at_dec_at(t: Seq<char>, pos: int, v: u64)
    requires
        num_at(t, pos, v),
    ensures
        dec_at(t, pos, v),
        t[pos + dec_digits(v as nat).len()] == '\n',
{
    let dd = dec_digits(v as nat);
    assert(num_enc(v as nat) =~= dd + seq!['\n']);
    lemma_parts_split(t, pos, dd, seq!['\n']);
    assert(t.subrange(pos + dd.len(), pos + dd.len() + 1)[0] == t[pos + dd.len()]);
}

/// The pieces of a field line at `pos`: the count, the colon, the field
/// characters, the newline, each in its place.
proof fn lemma_fld_at_parts(t: Seq<char>, pos: int, x: Seq<char>)
    requires
        fld_at(t, pos, x),
    ensures
        dec_at(t, pos, x.len() as u64),
        dec_digits((x.len() as u64) as nat) == dec_digits(x.len()),
        t[pos + dec_digits(x.len()).len()] == ':',
        t.subrange(
            pos + dec_digits(x.len()).len() + 1,
            pos + dec_digits(x.len()).len() + 1 + x.len(),
        ) == x,
        t[pos + dec_digits(x.len()).len() + 1 + x.len()] == '\n',
        fld_enc(x).len() == dec_digits(x.len()).len() + 1 + x.len() + 1,
{
    let dd = dec_digits(x.len());
    let p1 = pos + dd.len();
    let rest1 = seq![':'] + x + seq!['\n'];
    assert(fld_enc(x) =~= dd + rest1);
    lemma_parts_split(t, pos, dd, rest1);
    let rest2 = x + seq!['\n'];
    assert(rest1 =~= seq![':'] + rest2);
    lemma_parts_split(t, p1, seq![':'], rest2);
    lemma_parts_split(t, p1 + 1, x, seq!['\n']);
    assert(t.subrange(p1, p1 + 1)[0] == t[p1]);
    assert(t.subrange(p1 + 1 + x.len(), p1 + 1 + x.len() + 1)[0] == t[p1 + 1 + x.len()]);
    assert((x.len() as u64) as nat == x.len());
    assert(!is_digit(':'));
    assert(t[p1] == ':');
}

/// Reads one number line.
fn parse_num(s: &str, n: usize, pos: usize) -> (r: Option<(u64, usize)>)
    requires
        n == s@.len(),
        pos <= n,
    ensures
        r matches Some(p) ==> {
            &&& pos < p.1 <= n
            &&& s@.subrange(pos as int, p.1 as int) == num_enc(p.0 as nat)
        },
        forall|v: u64|
            num_at(s@, pos as int, v) ==> r == Some::<(u64, usize)>(
                (v, (pos + num_enc(v as nat).len()) as usize),
            ),
{
    match scan_u64(s, n, pos) {
        None => {
            proof {
                assert forall|v: u64| !num_at(s@, pos as int, v) by {
                    if num_at(s@, pos as int, v) {
                        lemma_num_at_dec_at(s@, pos as int, v);
                    }
                }
            }
            None
        },
        Some((v, j)) => {
            proof {
                assert forall|w: u64|
                    num_at(s@, pos as int, w) implies w == v && j == pos + dec_digits(
                    w as nat,
                ).len() && j < n && s@[j as int] == '\n' by {
                    lemma_num_at_dec_at(s@, pos as int, w);
                }
            }
            if j < n && s.get_char(j) == '\n' {
                proof {
                    assert(s@.subrange(j as int, j + 1) =~= seq!['\n']);
                    lemma_parts_join(
                        s@,
                        pos as int,
                        j as int,
                        j + 1,
                        dec_digits(v as nat),
                        seq!['\n'],
                    );
                    assert(num_enc(v as nat) =~= dec_digits(v as nat) + seq!['\n']);
                }
                Some((v, j + 1))
            } else {
                None
            }
        },
    }
}

/// Reads one field line: the character count, the colon, the field's
/// characters, the newline.
fn parse_field(s: &str, n: usize, pos: usize) -> (r: Option<(String, usize)>)
    requires
        n == s@.len(),
        pos <= n,
    ensures
        r matches Some(p) ==> {
            &&& pos < p.1 <= n
            &&& s@.subrange(pos as int, p.1 as int) == fld_enc(p.0@)
        },
        r matches Some(p) ==> p.0@.len() <= u64::MAX,
        forall|x: Seq<char>|
            fld_at(s@, pos as int, x) ==> (r matches Some(p) && p.0@ == x && p.1 == pos + fld_enc(
                x,
            ).len()),
{
    proof {
        assert forall|x: Seq<char>|
            fld_at(s@, pos as int, x) implies dec_at(s@, pos as int, x.len() as u64) by {
            lemma_fld_at_parts(s@, pos as int, x);
        }
    }
    match scan_u64(s, n, pos) {
        None => {
            None
        },
        Some((len_v, j)) => {
            proof {
                assert forall|x: Seq<char>|
                    fld_at(s@, pos as int, x) implies (len_v as nat) == x.len() && j == pos
                    + dec_digits(x.len()).len() && s@[j as int] == ':' && pos + fld_enc(x).len()
                    == j + 1 + x.len() + 1 && s@[j + 1 + x.len()] == '\n' && s@.subrange(
                    j + 1,
                    j + 1 + x.len(),
                ) == x by {
                    lemma_fld_at_parts(s@, pos as int, x);
                    lemma_dec_digits_wf(x.len());
                }
            }
            if !(j < n && s.get_char(j) == ':') {
                return None;
            }
            let start = j + 1;
            if len_v > (n - start) as u64 {
                return None;
            }
            let end = start + (len_v as usize);
            if !(end < n && s.get_char(end) == '\n') {
                return None;
            }
            let field = s.substring_char(start, end).to_owned();
            proof {
                let x0 = s@.subrange(start as int, end as int);
                assert(field@ == x0);
                assert(s@.subrange(j as int, start as int) =~= seq![':']);
                assert(s@.subrange(end as int, end + 1) =~= seq!['\n']);
                lemma_parts_join(
                    s@,
                    pos as int,
                    j as int,
                    start as int,
                    dec_digits(len_v as nat),
                    seq![':'],
                );
                lemma_parts_join(
                    s@,
                    pos as int,
                    start as int,
                    end as int,
                    dec_digits(len_v as nat) + seq![':'],
                    x0,
                );
                lemma_parts_join(
                    s@,
                    pos as int,
                    end as int,
                    end + 1,
                    dec_digits(len_v as nat) + seq![':'] + x0,
                    seq!['\n'],
                );
                assert(x0.len() == len_v as nat);
                assert(fld_enc(x0) =~= dec_digits(len_v as nat) + seq![':'] + x0 + seq!['\n']);
                assert(s@.subrange(pos as int, end + 1) == fld_enc(x0));
                assert forall|x: Seq<char>|
                    fld_at(s@, pos as int, x) implies field@ == x && end + 1 == pos + fld_enc(
                    x,
                ).len() by {
                    assert(x =~= x0);
                }
            }
            Some((field, end + 1))
        },
    }
}

/// A whole record encoding for `m` sits at `pos`.
pub open spec fn rec_at(t: Seq<char>, pos: int, m: RecordModel) -> bool {
    let e = pos + rec_enc(m).len();
    &&& 0 <= pos
    &&& model_sizes_ok(m)
    &&& e <= t.len()
    &&& t.subrange(pos, e) == rec_enc(m)
}

/// The pieces of a record at `pos`: two number lines, then the five field
/// lines, each at its offset.
proof fn lemma_rec_at_parts(t: Seq<char>, pos: int, m: RecordModel)
    requires
        rec_at(t, pos, m),
    ensures
        num_at(t, pos, m.id),
        num_at(t, pos + num_enc(m.id as nat).len(), m.timestamp),
        fld_at(t, pos + num_enc(m.id as nat).len() + num_enc(m.timestamp as nat).len(), m.actor),
        fld_at(
            t,
            pos + num_enc(m.id as nat).len() + num_enc(m.timestamp as nat).len() + fld_enc(
                m.actor,
            ).len(),
            m.payload,
        ),
        fld_at(
            t,
            pos + num_enc(m.id as nat).len() + num_enc(m.timestamp as nat).len() + fld_enc(
                m.actor,
            ).len() + fld_enc(m.payload).len(),
            m.hash,
        ),
        fld_at(
            t,
            pos + num_enc(m.id as nat).len() + num_enc(m.timestamp as nat).len() + fld_enc(
                m.actor,
            ).len() + fld_enc(m.payload).len() + fld_enc(m.hash).len(),
            m.prev_hash,
        ),
        fld_at(
            t,
            pos + num_enc(m.id as nat).len() + num_enc(m.timestamp as nat).len() + fld_enc(
                m.actor,
            ).len() + fld_enc(m.payload).len() + fld_enc(m.hash).len() + fld_enc(
                m.prev_hash,
            ).len(),
            m.signature,
        ),
        rec_enc(m).len() == num_enc(m.id as nat).len() + num_enc(m.timestamp as nat).len()
            + fld_enc(m.actor).len() + fld_enc(m.payload).len() + fld_enc(m.hash).len() + fld_enc(
            m.prev_hash,
        ).len() + fld_enc(m.signature).len(),
{
    let n1 = num_enc(m.id as nat);
    let n2 = num_enc(m.timestamp as nat);
    let f1 = fld_enc(m.actor);
    let f2 = fld_enc(m.payload);
    let f3 = fld_enc(m.hash);
    let f4 = fld_enc(m.prev_hash);
    let f5 = fld_enc(m.signature);
    let p1 = pos + n1.len();
    let p2 = p1 + n2.len();
    let p3 = p2 + f1.len();
    let p4 = p3 + f2.len();
    let p5 = p4 + f3.len();
    let p6 = p5 + f4.len();
    assert(rec_enc(m) =~= n1 + (n2 + f1 + f2 + f3 + f4 + f5));
    lemma_parts_split(t, pos, n1, n2 + f1 + f2 + f3 + f4 + f5);
    assert((n2 + f1 + f2 + f3 + f4 + f5) =~= n2 + (f1 + f2 + f3 + f4 + f5));
    lemma_parts_split(t, p1, n2, f1 + f2 + f3 + f4 + f5);
    assert((f1 + f2 + f3 + f4 + f5) =~= f1 + (f2 + f3 + f4 + f5));
    lemma_parts_split(t, p2, f1, f2 + f3 + f4 + f5);
    assert((f2 + f3 + f4 + f5) =~= f2 + (f3 + f4 + f5));
    lemma_parts_split(t, p3, f2, f3 + f4 + f5);
    assert((f3 + f4 + f5) =~= f3 + (f4 + f5));
    lemma_parts_split(t, p4, f3, f4 + f5);
    lemma_parts_split(t, p5, f4, f5);
}

/// Reads one record.
#[verifier::rlimit(100)]
fn parse_record(s: &str, n: usize, pos: usize) -> (r: Option<(AkashicEnvelope, usize)>)
    requires
        n == s@.len(),
        pos <= n,
    ensures
        r matches Some(p) ==> {
            &&& pos < p.1 <= n
            &&& s@.subrange(pos as int, p.1 as int) == rec_enc(p.0@)
            &&& model_sizes_ok(p.0@)
        },
        forall|m: RecordModel|
            rec_at(s@, pos as int, m) ==> (r matches Some(p) && p.0@ == m && p.1 == pos + rec_enc(
                m,
            ).len()),
{
    proof {
        assert forall|m: RecordModel|
            rec_at(s@, pos as int, m) implies num_at(s@, pos as int, m.id) by {
            lemma_rec_at_parts(s@, pos as int, m);
        }
    }
    let Some((id, q1)) = parse_num(s, n, pos) else {
        return None;
    };
    proof {
        assert forall|m: RecordModel|
            rec_at(s@, pos as int, m) implies id == m.id && q1 == pos + num_enc(m.id as nat).len()
            && num_at(s@, q1 as int, m.timestamp) by {
            lemma_rec_at_parts(s@, pos as int, m);
        }
    }
    let Some((timestamp, q2)) = parse_num(s, n, q1) else {
        return None;
    };
    proof {
        assert forall|m: RecordModel|
            rec_at(s@, pos as int, m) implies timestamp == m.timestamp && q2 == q1 + num_enc(
            m.timestamp as nat,
        ).len() && fld_at(s@, q2 as int, m.actor) by {
            lemma_rec_at_parts(s@, pos as int, m);
        }
    }
    let Some((actor, q3)) = parse_field(s, n, q2) else {
        return None;
    };
    proof {
        assert forall|m: RecordModel|
            rec_at(s@, pos as int, m) implies actor@ == m.actor && q3 == q2 + fld_enc(
            m.actor,
        ).len() && fld_at(s@, q3 as int, m.payload) by {
            lemma_rec_at_parts(s@, pos as int, m);
        }
    }
    let Some((payload, q4)) = parse_field(s, n, q3) else {
        return None;
    };
    proof {
        assert forall|m: RecordModel|
            rec_at(s@, pos as int, m) implies payload@ == m.payload && q4 == q3 + fld_enc(
            m.payload,
        ).len() && fld_at(s@, q4 as int, m.hash) by {
            lemma_rec_at_parts(s@, pos as int, m);
        }
    }
    let Some((hash, q5)) = parse_field(s, n, q4) else {
        return None;
    };
    proof {
        assert forall|m: RecordModel|
            rec_at(s@, pos as int, m) implies hash@ == m.hash && q5 == q4 + fld_enc(m.hash).len()
            && fld_at(s@, q5 as int, m.prev_hash) by {
            lemma_rec_at_parts(s@, pos as int, m);
        }
    }
    let Some((prev_hash, q6)) = parse_field(s, n, q5) else {
        return None;
    };
    proof {
        assert forall|m: RecordModel|
            rec_at(s@, pos as int, m) implies prev_hash@ == m.prev_hash && q6 == q5 + fld_enc(
            m.prev_hash,
        ).len() && fld_at(s@, q6 as int, m.signature) by {
            lemma_rec_at_parts(s@, pos as int, m);
        }
    }
    let Some((signature, q7)) = parse_field(s, n, q6) else {
        return None;
    };
    let env = AkashicEnvelope { id, timestamp, actor, payload, hash, prev_hash, signature };
    proof {
        lemma_parts_join(
            s@,
            pos as int,
            q1 as int,
            q2 as int,
            num_enc(id as nat),
            num_enc(timestamp as nat),
        );
        lemma_parts_join(
            s@,
            pos as int,
            q2 as int,
            q3 as int,
            num_enc(id as nat) + num_enc(timestamp as nat),
            fld_enc(actor@),
        );
        lemma_parts_join(
            s@,
            pos as int,
            q3 as int,
            q4 as int,
            num_enc(id as nat) + num_enc(timestamp as nat) + fld_enc(actor@),
            fld_enc(payload@),
        );
        lemma_parts_join(
            s@,
            pos as int,
            q4 as int,
            q5 as int,
            num_enc(id as nat) + num_enc(timestamp as nat) + fld_enc(actor@) + fld_enc(payload@),
            fld_enc(hash@),
        );
        lemma_parts_join(
            s@,
            pos as int,
            q5 as int,
            q6 as int,
            num_enc(id as nat) + num_enc(timestamp as nat) + fld_enc(actor@) + fld_enc(payload@)
                + fld_enc(hash@),
            fld_enc(prev_hash@),
        );
        lemma_parts_join(
            s@,
            pos as int,
            q6 as int,
            q7 as int,
            num_enc(id as nat) + num_enc(timestamp as nat) + fld_enc(actor@) + fld_enc(payload@)
                + fld_enc(hash@) + fld_enc(prev_hash@),
            fld_enc(signature@),
        );
        assert(s@.subrange(pos as int, q7 as int) == rec_enc(env@));
        assert forall|m: RecordModel|
            rec_at(s@, pos as int, m) implies signature@ == m.signature && q7 == pos + rec_enc(
            m,
        ).len() && env@ == m by {
            lemma_rec_at_parts(s@, pos as int, m);
        }
    }
    Some((env, q7))
}

/// Appends one number line.
fn push_num(out: &mut String, v: u64)
    ensures
        final(out)@ == old(out)@ + num_enc(v as nat),
{
    let d = encode_u64(v);
    out.append(d.as_str());
    out.append("\n");
    proof {
        reveal_strlit("\n");
        assert("\n"@ =~= seq!['\n']);
        assert(old(out)@ + num_enc(v as nat) =~= old(out)@ + dec_digits(v as nat) + "\n"@);
    }
}

/// Appends one field line.
fn push_field(out: &mut String, x: &str)
    ensures
        final(out)@ == old(out)@ + fld_enc(x@),
        x@.len() <= u64::MAX,
{
    let n = x.unicode_len();
    let d = encode_u64(n as u64);
    out.append(d.as_str());
    out.append(":");
    out.append(x);
    out.append("\n");
    proof {
        reveal_strlit(":");
        reveal_strlit("\n");
        assert(":"@ =~= seq![':']);
        assert("\n"@ =~= seq!['\n']);
        assert(old(out)@ + fld_enc(x@) =~= old(out)@ + dec_digits(x@.len()) + ":"@ + x@ + "\n"@);
    }
}

} // verus!

verus! {

/// Law: record encodings concatenate.
pub proof fn lemma_recs_enc_append(a: Seq<RecordModel>, b: Seq<RecordModel>)
    ensures
        recs_enc(a + b) == recs_enc(a) + recs_enc(b),
    decreases a.len(),
{
    if a.len() == 0 {
        assert(a + b =~= b);
        assert(recs_enc(a) == Seq::<char>::empty());
        assert(recs_enc(a) + recs_enc(b) =~= recs_enc(b));
    } else {
        assert((a + b)[0] == a[0]);
        assert((a + b).skip(1) =~= a.skip(1) + b);
        lemma_recs_enc_append(a.skip(1), b);
        assert(recs_enc(a + b) == rec_enc(a[0]) + (recs_enc(a.skip(1)) + recs_enc(b)));
        assert(rec_enc(a[0]) + (recs_enc(a.skip(1)) + recs_enc(b)) =~= (rec_enc(a[0]) + recs_enc(
            a.skip(1),
        )) + recs_enc(b));
    }
}

/// Law: extending the encoded prefix by one record.
pub proof fn lemma_recs_enc_snoc(ms: Seq<RecordModel>, k: int)
    requires
        0 <= k < ms.len(),
    ensures
        recs_enc(ms.take(k + 1)) == recs_enc(ms.take(k)) + rec_enc(ms[k]),
{
    let one = seq![ms[k]];
    assert(ms.take(k + 1) =~= ms.take(k) + one);
    lemma_recs_enc_append(ms.take(k), one);
    assert(one.skip(1) =~= Seq::<RecordModel>::empty());
    assert(recs_enc(one) == rec_enc(one[0]) + recs_enc(one.skip(1)));
    assert(recs_enc(one) =~= rec_enc(ms[k]));
}

/// Law: the remaining records start with the next one.
pub proof fn lemma_recs_enc_step(ms: Seq<RecordModel>, k: int)
    requires
        0 <= k < ms.len(),
    ensures
        recs_enc(ms.skip(k)) == rec_enc(ms[k]) + recs_enc(ms.skip(k + 1)),
{
    assert(ms.skip(k)[0] == ms[k]);
    assert(ms.skip(k).skip(1) =~= ms.skip(k + 1));
    assert(recs_enc(ms.skip(k)) == rec_enc(ms.skip(k)[0]) + recs_enc(ms.skip(k).skip(1)));
}

/// Serializes records in chain order to the snapshot text: a record count
/// line, then each record as two number lines and five field lines.
#[verifier::rlimit(100)]
pub fn encode_snapshot(records: &Vec<AkashicEnvelope>) -> (text: String)
    ensures
        text@ == snapshot_enc(models(records@)),
        snap_ok(models(records@)),
{
    let ghost ms = models(records@);
    let mut out = String::new();
    let n = records.len();
    push_num(&mut out, n as u64);
    proof {
        assert(ms.len() == records@.len());
        assert(ms.take(0) =~= Seq::<RecordModel>::empty());
        assert(recs_enc(Seq::<RecordModel>::empty()) == Seq::<char>::empty());
        assert(out@ =~= num_enc(ms.len()) + recs_enc(ms.take(0)));
    }
    let mut i: usize = 0;
    while i < n
        invariant
            i <= n,
            n == records@.len(),
            ms == models(records@),
            out@ == num_enc(ms.len()) + recs_enc(ms.take(i as int)),
            forall|k: int| 0 <= k < i ==> model_sizes_ok(#[trigger] ms[k]),
        decreases n - i,
    {
        let e = &records[i];
        proof {
            assert(ms[i as int] == records@[i as int]@);
        }
        push_num(&mut out, e.id);
        push_num(&mut out, e.timestamp);
        push_field(&mut out, e.actor.as_str());
        push_field(&mut out, e.payload.as_str());
        push_field(&mut out, e.hash.as_str());
        push_field(&mut out, e.prev_hash.as_str());
        push_field(&mut out, e.signature.as_str());
        proof {
            lemma_recs_enc_snoc(ms, i as int);
            assert(out@ =~= num_enc(ms.len()) + recs_enc(ms.take(i + 1)));
        }
        i = i + 1;
    }
    proof {
        assert(ms.take(n as int) =~= ms);
    }
    out
}

/// Reparses a snapshot text: `Some` only on the exact encoding of a record
/// sequence, which it returns field for field; any text that encodes a
/// sequence parses back to exactly that sequence.
#[verifier::rlimit(100)]
pub fn parse_snapshot(text: &str) -> (r: Option<Vec<AkashicEnvelope>>)
    ensures
        r matches Some(v) ==> {
            &&& text@ == snapshot_enc(models(v@))
            &&& snap_ok(models(v@))
        },
        forall|ms: Seq<RecordModel>|
            (snap_ok(ms) && text@ == snapshot_enc(ms)) ==> (r matches Some(v) && models(v@) == ms),
{
    let n = text.unicode_len();
    proof {
        assert forall|ms: Seq<RecordModel>|
            (snap_ok(ms) && text@ == snapshot_enc(ms)) implies num_at(
            text@,
            0,
            ms.len() as u64,
        ) by {
            assert(text@.subrange(0, num_enc(ms.len()).len() as int) =~= num_enc(ms.len()));
            assert((ms.len() as u64) as nat == ms.len());
        }
    }
    let Some((count, start)) = parse_num(text, n, 0) else {
        return None;
    };
    proof {
        assert forall|ms: Seq<RecordModel>|
            (snap_ok(ms) && text@ == snapshot_enc(ms)) implies count == ms.len() && start
            == num_enc(ms.len()).len() by {
            assert((ms.len() as u64) as nat == ms.len());
        }
    }
    let mut out: Vec<AkashicEnvelope> = Vec::new();
    let mut pos = start;
    let mut k: u64 = 0;
    proof {
        assert(models(out@) =~= Seq::<RecordModel>::empty());
        assert(recs_enc(Seq::<RecordModel>::empty()) == Seq::<char>::empty());
        assert(text@.subrange(0, pos as int) =~= num_enc(count as nat) + recs_enc(models(out@)));
    }
    while k < count
        invariant
            n == text@.len(),
            pos <= n,
            k <= count,
            out@.len() == k,
            text@.subrange(0, pos as int) == num_enc(count as nat) + recs_enc(models(out@)),
            forall|i: int| 0 <= i < out@.len() ==> model_sizes_ok(#[trigger] models(out@)[i]),
            forall|ms: Seq<RecordModel>|
                (snap_ok(ms) && text@ == snapshot_enc(ms)) ==> {
                    &&& count == ms.len()
                    &&& models(out@) == ms.take(k as int)
                    &&& pos == num_enc(ms.len()).len() + recs_enc(ms.take(k as int)).len()
                },
        decreases count - k,
    {
        proof {
            assert forall|ms: Seq<RecordModel>|
                (snap_ok(ms) && text@ == snapshot_enc(ms)) implies rec_at(
                text@,
                pos as int,
                ms[k as int],
            ) by {
                assert(ms.take(k as int) + ms.skip(k as int) =~= ms);
                lemma_recs_enc_append(ms.take(k as int), ms.skip(k as int));
                lemma_recs_enc_step(ms, k as int);
                let pre = num_enc(ms.len()) + recs_enc(ms.take(k as int));
                let mid = rec_enc(ms[k as int]);
                let post = recs_enc(ms.skip(k + 1));
                assert(text@ =~= pre + (mid + post));
                assert(text@.subrange(0, text@.len() as int) =~= text@);
                lemma_parts_split(text@, 0, pre, mid + post);
                lemma_parts_split(text@, pre.len() as int, mid, post);
                assert(pre.len() == pos);
            }
        }
        let Some((env, p2)) = parse_record(text, n, pos) else {
            return None;
        };
        proof {
            let new_ms = models(out@.push(env));
            assert(new_ms =~= models(out@).push(env@));
            assert(new_ms =~= models(out@) + seq![env@]);
            lemma_recs_enc_append(models(out@), seq![env@]);
            assert(seq![env@].skip(1) =~= Seq::<RecordModel>::empty());
            assert(recs_enc(seq![env@]) == rec_enc(seq![env@][0]) + recs_enc(seq![env@].skip(1)));
            assert(recs_enc(seq![env@]) =~= rec_enc(env@));
            lemma_parts_join(
                text@,
                0,
                pos as int,
                p2 as int,
                num_enc(count as nat) + recs_enc(models(out@)),
                rec_enc(env@),
            );
            assert((num_enc(count as nat) + recs_enc(models(out@))) + rec_enc(env@) =~= num_enc(
                count as nat,
            ) + recs_enc(new_ms));
            assert forall|ms: Seq<RecordModel>|
                (snap_ok(ms) && text@ == snapshot_enc(ms)) implies new_ms == ms.take(k + 1) && p2
                == num_enc(ms.len()).len() + recs_enc(ms.take(k + 1)).len() by {
                assert(rec_at(text@, pos as int, ms[k as int]));
                assert(env@ == ms[k as int]);
                lemma_recs_enc_snoc(ms, k as int);
                assert(new_ms =~= ms.take(k + 1));
            }
        }
        out.push(env);
        pos = p2;
        k = k + 1;
    }
    if pos != n {
        proof {
            assert forall|ms: Seq<RecordModel>|
                !(snap_ok(ms) && text@ == snapshot_enc(ms)) by {
                if snap_ok(ms) && text@ == snapshot_enc(ms) {
                    assert(ms.take(k as int) =~= ms);
                    assert(pos == snapshot_enc(ms).len());
                }
            }
        }
        return None;
    }
    proof {
        assert(text@.subrange(0, n as int) =~= text@);
        assert(models(out@).len() == count as nat);
        assert(text@ == snapshot_enc(models(out@)));
        assert forall|ms: Seq<RecordModel>|
            (snap_ok(ms) && text@ == snapshot_enc(ms)) implies models(out@) == ms by {
            assert(ms.take(k as int) =~= ms);
        }
    }
    Some(out)
}

} // verus!
