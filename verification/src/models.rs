//! The data carriers shared with the unverified shell: the submitted
//! connection form, the persisted catalog record, and the batch-delete form.

use vstd::prelude::*;

use crate::strutil::{
    find_char, first_where, lemma_first_where_at, lemma_first_where_props, spec_trim, trim_ascii,
};

verus! {

/// What the connection input form submits: a connection descriptor and the
/// local port the tunnel should expose.
#[derive(Clone, Debug)]
pub struct ConnectionForm {
    pub connection: String,
    pub port: u16,
}

/// One record of the persisted connection catalog.  The catalog owns these;
/// the proxy core reads them, and `connection_string` is unique across all
/// records used as a routing key.
#[derive(Clone, Debug)]
pub struct Connection {
    pub id: i64,
    pub connection_string: String,
    pub port: i32,
    pub created_at: String,
}

/// The batch-delete form: record identifiers as one comma-separated string.
#[derive(Clone, Debug)]
pub struct BatchDeleteForm {
    pub connection_ids: String,
}

/// A decimal digit.
pub open spec fn is_digit(c: char) -> bool {
    '0' <= c && c <= '9'
}

/// The value of one decimal digit character.
pub open spec fn digit_val(c: char) -> int {
    (c as u32) - 48
}

/// The value of a run of decimal digit characters.
pub open spec fn digits_val(s: Seq<char>) -> int
    decreases s.len(),
{
    if s.len() == 0 {
        0
    } else {
        digits_val(s.drop_last()) * 10 + digit_val(s.last())
    }
}

/// Whether a sequence is all decimal digits.
pub open spec fn all_digits(s: Seq<char>) -> bool {
    forall|i: int| 0 <= i < s.len() ==> is_digit(s[i])
}

/// What parsing a signed 64-bit integer accepts, as `str::parse` does: an
/// optional sign, then one or more decimal digits, the whole within range.
pub open spec fn spec_parse_i64(s: Seq<char>) -> Option<i64> {
    let neg = s.len() > 0 && s[0] == '-';
    let ds = if s.len() > 0 && (s[0] == '-' || s[0] == '+') {
        s.drop_first()
    } else {
        s
    };
    if ds.len() == 0 || !all_digits(ds) {
        None
    } else {
        let v = if neg {
            -digits_val(ds)
        } else {
            digits_val(ds)
        };
        if i64::MIN <= v <= i64::MAX {
            Some(v as i64)
        } else {
            None
        }
    }
}

proof fn lemma_digits_val_nonneg(s: Seq<char>)
    requires
        all_digits(s),
    ensures
        digits_val(s) >= 0,
    decreases s.len(),
{
    if s.len() > 0 {
        lemma_digits_val_nonneg(s.drop_last());
    }
}

/// Under all-digits, a digit run is worth at least any of its prefixes.
proof fn lemma_digits_val_prefix(s: Seq<char>, i: int)
    requires
        all_digits(s),
        0 <= i <= s.len(),
    ensures
        digits_val(s) >= digits_val(s.take(i)),
    decreases s.len() - i,
{
    if i == s.len() {
        assert(s.take(i) =~= s);
    } else {
        let p = s.take(i + 1);
        assert(p.drop_last() =~= s.take(i));
        assert(all_digits(s.take(i)));
        lemma_digits_val_nonneg(s.take(i));
        assert(digits_val(p) == digits_val(s.take(i)) * 10 + digit_val(s[i]));
        lemma_digits_val_prefix(s, i + 1);
    }
}

/// The comma-separated pieces of a string; separators at either end yield
/// empty pieces, as `str::split` has it.
pub open spec fn spec_split_commas(s: Seq<char>) -> Seq<Seq<char>>
    decreases s.len(),
    via spec_split_commas_decreases
{
    let i = first_where(s, |c: char| c == ',');
    if i >= s.len() {
        seq![s]
    } else {
        seq![s.take(i)] + spec_split_commas(s.skip(i + 1))
    }
}

#[via_fn]
proof fn spec_split_commas_decreases(s: Seq<char>) {
    lemma_first_where_props(s, |c: char| c == ',');
}

/// What parsing a piece list yields: each piece is trimmed, blank pieces are
/// passed over, and every remaining piece must parse as a signed 64-bit
/// integer, else the whole list is rejected.
pub open spec fn spec_parse_pieces(ps: Seq<Seq<char>>) -> Option<Seq<i64>>
    decreases ps.len(),
{
    if ps.len() == 0 {
        Some(Seq::empty())
    } else {
        let t = spec_trim(ps[0]);
        if t.len() == 0 {
            spec_parse_pieces(ps.drop_first())
        } else {
            match spec_parse_i64(t) {
                Some(v) => match spec_parse_pieces(ps.drop_first()) {
                    Some(vs) => Some(seq![v] + vs),
                    None => None,
                },
                None => None,
            }
        }
    }
}

/// What the batch-delete form's identifier list means: the comma-separated
/// pieces, trimmed, blanks passed over, each an integer — or nothing, when
/// any piece is malformed.
pub open spec fn spec_parse_id_list(s: Seq<char>) -> Option<Seq<i64>> {
    spec_parse_pieces(spec_split_commas(s))
}

/// Parses the batch-delete form's comma-separated identifier list.
pub fn parse_id_list(s: &str) -> (r: Option<Vec<i64>>)
    ensures
        match r {
            Some(ids) => spec_parse_id_list(s@) == Some(ids@),
            None => spec_parse_id_list(s@) is None,
        },
{
    let ghost cm = |c: char| c == ',';
    let len = s.unicode_len();
    let mut p: usize = 0;
    let mut out: Vec<i64> = Vec::new();
    proof {
        assert(s@.skip(0) =~= s@);
        assert(out@ =~= Seq::<i64>::empty());
    }
    while p < len
        invariant
            cm == (|c: char| c == ','),
            len == s@.len(),
            p <= len,
            ({
                let rem = spec_parse_pieces(spec_split_commas(s@.skip(p as int)));
                &&& (rem is Some ==> spec_parse_id_list(s@) == Some(out@ + rem->0))
                &&& (rem is None ==> spec_parse_id_list(s@) is None)
            }),
        decreases len - p,
    {
        let suf = s.substring_char(p, len);
        let ghost suffix = s@.skip(p as int);
        proof {
            assert(suf@ =~= suffix);
        }
        let (piece, next_p): (&str, usize) = match find_char(suf, ',') {
            Some(i) => {
                proof {
                    assert forall|k: int| 0 <= k < i implies !cm(suffix[k]) by {
                        assert(suf@[k] != ',');
                    }
                    assert(cm(suffix[i as int]));
                    lemma_first_where_at(suffix, cm, i as int);
                    assert(suffix.skip(i + 1) =~= s@.skip(p + i + 1));
                }
                (suf.substring_char(0, i), p + i + 1)
            },
            None => {
                proof {
                    assert forall|k: int| 0 <= k < suffix.len() implies !cm(suffix[k]) by {
                        assert(suf@[k] != ',');
                    }
                    lemma_first_where_at(suffix, cm, suffix.len() as int);
                    assert(spec_split_commas(suffix) =~= seq![suffix]);
                }
                (suf, len)
            },
        };
        let ghost rest_pieces = spec_split_commas(s@.skip(next_p as int));
        proof {
            if first_where(suffix, cm) >= suffix.len() {
                assert(s@.skip(len as int) =~= Seq::<char>::empty());
                lemma_first_where_at(Seq::<char>::empty(), cm, 0);
                assert(spec_split_commas(Seq::<char>::empty()) =~= seq![Seq::<char>::empty()]);
            } else {
                assert(spec_split_commas(suffix) =~= seq![piece@] + rest_pieces);
            }
            assert(spec_split_commas(suffix)[0] == piece@);
            assert(spec_split_commas(suffix).len() > 0);
        }
        let t = trim_ascii(piece);
        let t_len = t.unicode_len();
        let ghost pre_out = out@;
        if t_len > 0 {
            match parse_i64(t) {
                Some(v) => {
                    out.push(v);
                },
                None => {
                    return None;
                },
            }
        }
        proof {
            let tail = spec_split_commas(suffix).drop_first();
            if first_where(suffix, cm) >= suffix.len() {
                assert(tail =~= Seq::<Seq<char>>::empty());
                // the lone empty final piece of the empty tail parses to the
                // empty list, as the bare tail does, so the invariant carries
                let empty = Seq::<char>::empty();
                assert(spec_trim(empty) == empty);
                assert(seq![empty].drop_first() =~= Seq::<Seq<char>>::empty());
                assert(spec_parse_pieces(seq![empty]) == spec_parse_pieces(
                    Seq::<Seq<char>>::empty(),
                ));
            } else {
                assert(tail =~= rest_pieces);
            }
            if t@.len() > 0 && spec_parse_i64(t@) is Some {
                let v = spec_parse_i64(t@)->0;
                assert(out@ =~= pre_out + seq![v]);
                let rem = spec_parse_pieces(tail);
                if rem is Some {
                    assert(pre_out + (seq![v] + rem->0) =~= (pre_out + seq![v]) + rem->0);
                }
            }
        }
        p = next_p;
    }
    proof {
        let empty = Seq::<char>::empty();
        assert(s@.skip(len as int) =~= empty);
        lemma_first_where_at(empty, |c: char| c == ',', 0);
        assert(spec_split_commas(empty) =~= seq![empty]);
        assert(spec_trim(empty) == empty);
        assert(seq![empty].drop_first() =~= Seq::<Seq<char>>::empty());
        assert(spec_parse_pieces(seq![empty]) == spec_parse_pieces(Seq::<Seq<char>>::empty()));
        assert(out@ + Seq::<i64>::empty() =~= out@);
    }
    Some(out)
}

/// Parses a signed 64-bit integer, exactly as `spec_parse_i64` describes.
pub fn parse_i64(s: &str) -> (r: Option<i64>)
    ensures
        r == spec_parse_i64(s@),
{
    let len = s.unicode_len();
    if len == 0 {
        return None;
    }
    let first = s.get_char(0);
    let neg = first == '-';
    let start: usize = if first == '-' || first == '+' {
        1
    } else {
        0
    };
    let ghost ds = if s@[0] == '-' || s@[0] == '+' {
        s@.drop_first()
    } else {
        s@
    };
    proof {
        assert(ds =~= s@.skip(start as int));
    }
    if start == len {
        proof {
            assert(ds.len() == 0);
        }
        return None;
    }
    let mut m: i128 = 0;
    let mut i: usize = start;
    while i < len
        invariant
            len == s@.len(),
            start <= i <= len,
            start < len,
            neg == (s@[0] == '-'),
            ds == (if s@[0] == '-' || s@[0] == '+' {
                s@.drop_first()
            } else {
                s@
            }),
            ds == s@.skip(start as int),
            all_digits(ds.take(i - start)),
            0 <= m <= 0x8000_0000_0000_0000i128,
            m == digits_val(ds.take(i - start)),
        decreases len - i,
    {
        let c = s.get_char(i);
        if !('0' <= c && c <= '9') {
            proof {
                assert(ds[i - start] == s@[i as int]);
                assert(!is_digit(ds[i - start]));
            }
            return None;
        }
        if m > 0x0CCC_CCCC_CCCC_CCCCi128 {
            // the magnitude already exceeds every 64-bit value after this
            // digit, and it can only grow
            proof {
                let ghost k = (i - start) as int;
                assert(ds[k] == s@[i as int]);
                assert(ds.take(k + 1).drop_last() =~= ds.take(k));
                assert(digits_val(ds.take(k + 1)) == m * 10 + digit_val(ds[k]));
                if all_digits(ds) {
                    lemma_digits_val_prefix(ds, k + 1);
                    assert(digits_val(ds) > i64::MAX);
                    assert(-digits_val(ds) < i64::MIN);
                }
            }
            return None;
        }
        let d: i128 = ((c as u32) - 48) as i128;
        proof {
            let ghost k = (i - start) as int;
            assert(ds[k] == s@[i as int]);
            assert(is_digit(ds[k]));
            assert(ds.take(k + 1).drop_last() =~= ds.take(k));
            assert(digits_val(ds.take(k + 1)) == m * 10 + digit_val(ds[k]));
        }
        m = m * 10 + d;
        if m > 0x8000_0000_0000_0000i128 {
            proof {
                let ghost k = (i - start + 1) as int;
                if all_digits(ds) {
                    lemma_digits_val_prefix(ds, k);
                    assert(digits_val(ds) > i64::MAX);
                    assert(-digits_val(ds) < i64::MIN);
                }
            }
            return None;
        }
        i = i + 1;
    }
    proof {
        assert(ds.take(len - start) =~= ds);
    }
    if neg {
        if m == 0x8000_0000_0000_0000i128 {
            proof {
                assert(-m == i64::MIN);
            }
            return Some(i64::MIN);
        }
        Some(-(m as i64))
    } else {
        if m == 0x8000_0000_0000_0000i128 {
            proof {
                assert(digits_val(ds) > i64::MAX);
            }
            return None;
        }
        Some(m as i64)
    }
}

} // verus!
