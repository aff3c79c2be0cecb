//! Snapshot indices and entry names.
//!
//! A snapshot's on-disk name is its positive decimal index, optionally
//! followed by `_` and a free-text note.  Only the text before the first `_`
//! counts as the index; an entry whose prefix is not a positive decimal
//! number is not a snapshot and is ignored everywhere.

use vstd::prelude::*;
use vstd::string::*;

use crate::note::trim_spec;
use crate::note::trim;

verus! {

/// Is `c` a decimal digit?
pub open spec fn is_digit(c: char) -> bool {
    48 <= c as u32 && c as u32 <= 57
}

/// The numeric value of a digit character.
pub open spec fn digit_val(c: char) -> int {
    (c as u32) as int - 48
}

/// Every character of `s` is a decimal digit.
pub open spec fn all_digits(s: Seq<char>) -> bool {
    forall|i: int| 0 <= i < s.len() ==> is_digit(#[trigger] s[i])
}

/// The value of a digit string, read left to right.
pub open spec fn digits_val(s: Seq<char>) -> int
    decreases s.len(),
{
    if s.len() == 0 {
        0
    } else {
        digits_val(s.drop_last()) * 10 + digit_val(s.last())
    }
}

/// The length of the part of `s` before its first `_` (all of `s` if none).
pub open spec fn prefix_len(s: Seq<char>) -> int
    decreases s.len(),
{
    if s.len() == 0 {
        0
    } else if s[0] == '_' {
        0
    } else {
        1 + prefix_len(s.subrange(1, s.len() as int))
    }
}

/// The index encoded in an entry name: the value of the digits before the
/// first `_`, provided that prefix is nonempty, all digits, positive, and
/// fits in a `u64`.  `None` marks the entry as not a snapshot.
pub open spec fn parse_index_spec(s: Seq<char>) -> Option<u64> {
    let p = s.subrange(0, prefix_len(s));
    if p.len() > 0 && all_digits(p) && 1 <= digits_val(p) <= u64::MAX {
        Some(digits_val(p) as u64)
    } else {
        None
    }
}

proof fn lemma_digits_val_nonneg(s: Seq<char>)
    requires
        all_digits(s),
    ensures
        digits_val(s) >= 0,
    decreases s.len(),
{
    if s.len() > 0 {
        assert(all_digits(s.drop_last()));
        lemma_digits_val_nonneg(s.drop_last());
        assert(is_digit(s.last()));
    }
}

/// Appending digits never shrinks the value.
proof fn lemma_digits_val_grows(s: Seq<char>, i: int)
    requires
        all_digits(s),
        0 <= i <= s.len(),
    ensures
        digits_val(s.take(i)) <= digits_val(s),
    decreases s.len() - i,
{
    if i < s.len() {
        lemma_digits_val_grows(s, i + 1);
        let t = s.take(i + 1);
        assert(t.drop_last() =~= s.take(i));
        assert(all_digits(s.take(i)));
        lemma_digits_val_nonneg(s.take(i));
        assert(is_digit(t.last()));
        assert(digits_val(s.take(i)) <= digits_val(s.take(i)) * 10 + digit_val(t.last()));
    } else {
        assert(s.take(i) =~= s);
    }
}

/// `prefix_len` is the position of the first `_`, or the whole length.
proof fn lemma_prefix_len_at(s: Seq<char>, i: int)
    requires
        0 <= i <= s.len(),
        forall|k: int| 0 <= k < i ==> s[k] != '_',
        i == s.len() || s[i] == '_',
    ensures
        prefix_len(s) == i,
    decreases s.len(),
{
    if s.len() > 0 && s[0] != '_' {
        let t = s.subrange(1, s.len() as int);
        lemma_prefix_len_at(t, i - 1);
    }
}

/// Parse the index prefix of an entry name, exactly as `parse_index_spec`
/// describes it.
pub fn parse_index(name: &str) -> (r: Option<u64>)
    ensures
        r == parse_index_spec(name@),
{
    let n = name.unicode_len();
    // Find the first `_`.
    let mut end: usize = 0;
    while end < n && name.get_char(end) != '_'
        invariant
            0 <= end <= n,
            n == name@.len(),
            forall|k: int| 0 <= k < end ==> name@[k] != '_',
        decreases n - end,
    {
        end = end + 1;
    }
    proof {
        lemma_prefix_len_at(name@, end as int);
    }
    let ghost p = name@.subrange(0, prefix_len(name@));
    if end == 0 {
        proof {
            assert(p.len() == 0);
        }
        return None;
    }
    // Accumulate the digit value, rejecting non-digits and overflow.
    let mut val: u64 = 0;
    let mut j: usize = 0;
    while j < end
        invariant
            0 <= j <= end <= n,
            n == name@.len(),
            end as int == prefix_len(name@),
            p == name@.subrange(0, end as int),
            all_digits(p.take(j as int)),
            val == digits_val(p.take(j as int)),
        decreases end - j,
    {
        let c = name.get_char(j);
        let u = c as u32;
        if u < 48 || u > 57 {
            proof {
                assert(p[j as int] == name@[j as int]);
                assert(!is_digit(p[j as int]));
            }
            return None;
        }
        let d = (u - 48) as u64;
        proof {
            assert(p[j as int] == name@[j as int]);
            assert(is_digit(p[j as int]));
            assert(digit_val(p[j as int]) == d);
            assert(p.take(j + 1).drop_last() =~= p.take(j as int));
        }
        if val > (u64::MAX - d) / 10 {
            proof {
                assert(digits_val(p.take(j + 1)) == val * 10 + d);
                assert(val * 10 + d > u64::MAX) by (nonlinear_arith)
                    requires
                        val > (u64::MAX - d) / 10,
                        d <= 9,
                ;
                if all_digits(p) {
                    lemma_digits_val_grows(p, j + 1);
                    assert(digits_val(p.take(j + 1)) <= digits_val(p));
                }
            }
            return None;
        }
        proof {
            assert(val * 10 + d <= u64::MAX) by (nonlinear_arith)
                requires
                    val <= (u64::MAX - d) / 10,
                    d <= 9,
            ;
        }
        val = val * 10 + d;
        j = j + 1;
    }
    proof {
        assert(p.take(end as int) =~= p);
    }
    if val == 0 {
        return None;
    }
    Some(val)
}

/// The digit character for a value below ten.
pub open spec fn digit_char(d: int) -> char {
    if d == 0 {
        '0'
    } else if d == 1 {
        '1'
    } else if d == 2 {
        '2'
    } else if d == 3 {
        '3'
    } else if d == 4 {
        '4'
    } else if d == 5 {
        '5'
    } else if d == 6 {
        '6'
    } else if d == 7 {
        '7'
    } else if d == 8 {
        '8'
    } else {
        '9'
    }
}

/// The decimal digit string of `n`, without sign or padding.
pub open spec fn decimal_digits(n: nat) -> Seq<char>
    decreases n,
{
    if n < 10 {
        seq![digit_char(n as int)]
    } else {
        decimal_digits(n / 10).push(digit_char((n % 10) as int))
    }
}

/// The decimal digit string of a number is nonempty, consists of digits, and
/// reads back as that number.
pub proof fn lemma_decimal_digits_wf(n: nat)
    ensures
        decimal_digits(n).len() >= 1,
        all_digits(decimal_digits(n)),
        digits_val(decimal_digits(n)) == n,
    decreases n,
{
    if n < 10 {
        let c = digit_char(n as int);
        let s = seq![c];
        assert(is_digit(c) && digit_val(c) == n);
        assert(s.drop_last() =~= Seq::<char>::empty());
        assert(s.last() == c);
        assert(decimal_digits(n) == s);
        assert(all_digits(s)) by {
            assert(s[0] == c);
        }
        assert(digits_val(s) == digits_val(s.drop_last()) * 10 + digit_val(s.last()));
        assert(digits_val(s.drop_last()) == 0);
        assert(digits_val(s) == n);
    } else {
        lemma_decimal_digits_wf(n / 10);
        let r = decimal_digits(n / 10);
        let c = digit_char((n % 10) as int);
        assert(is_digit(c) && digit_val(c) == n % 10);
        let s = r.push(c);
        assert(s.drop_last() =~= r);
        assert(s.last() == c);
        assert forall|i: int| 0 <= i < s.len() implies is_digit(#[trigger] s[i]) by {
            if i < r.len() {
                assert(s[i] == r[i]);
            }
        }
        assert(digits_val(s) == (n / 10) * 10 + n % 10);
        assert(n == (n / 10) * 10 + n % 10) by {
            vstd::arithmetic::div_mod::lemma_fundamental_div_mod(n as int, 10);
        }
    }
}

fn digit_str(d: u64) -> (r: &'static str)
    requires
        d < 10,
    ensures
        r@ == seq![digit_char(d as int)],
{
    match d {
        0 => {
            proof {
                reveal_strlit("0");
                assert("0"@ =~= seq![digit_char(0)]);
            }
            "0"
        },
        1 => {
            proof {
                reveal_strlit("1");
                assert("1"@ =~= seq![digit_char(1)]);
            }
            "1"
        },
        2 => {
            proof {
                reveal_strlit("2");
                assert("2"@ =~= seq![digit_char(2)]);
            }
            "2"
        },
        3 => {
            proof {
                reveal_strlit("3");
                assert("3"@ =~= seq![digit_char(3)]);
            }
            "3"
        },
        4 => {
            proof {
                reveal_strlit("4");
                assert("4"@ =~= seq![digit_char(4)]);
            }
            "4"
        },
        5 => {
            proof {
                reveal_strlit("5");
                assert("5"@ =~= seq![digit_char(5)]);
            }
            "5"
        },
        6 => {
            proof {
                reveal_strlit("6");
                assert("6"@ =~= seq![digit_char(6)]);
            }
            "6"
        },
        7 => {
            proof {
                reveal_strlit("7");
                assert("7"@ =~= seq![digit_char(7)]);
            }
            "7"
        },
        8 => {
            proof {
                reveal_strlit("8");
                assert("8"@ =~= seq![digit_char(8)]);
            }
            "8"
        },
        _ => {
            proof {
                reveal_strlit("9");
                assert("9"@ =~= seq![digit_char(9)]);
            }
            "9"
        },
    }
}

/// Render `n` as its decimal digit string.
pub fn u64_to_string(n: u64) -> (s: String)
    ensures
        s@ == decimal_digits(n as nat),
    decreases n,
{
    if n < 10 {
        String::from_str(digit_str(n))
    } else {
        let mut s = u64_to_string(n / 10);
        s.append(digit_str(n % 10));
        proof {
            assert(decimal_digits((n / 10) as nat) + seq![digit_char((n % 10) as int)]
                =~= decimal_digits(n as nat));
        }
        s
    }
}

/// The on-disk name of a snapshot: the decimal index alone when the note is
/// empty, otherwise the index, `_`, and the trimmed note.
pub open spec fn snapshot_name_spec(idx: u64, note: Seq<char>) -> Seq<char> {
    if note.len() == 0 {
        decimal_digits(idx as nat)
    } else {
        decimal_digits(idx as nat) + seq!['_'] + trim_spec(note)
    }
}

/// Build the on-disk name for a snapshot with index `idx` and (possibly
/// empty) note `note`.
pub fn snapshot_name(idx: u64, note: &str) -> (r: String)
    ensures
        r@ == snapshot_name_spec(idx, note@),
{
    let mut s = u64_to_string(idx);
    if !note.is_empty() {
        proof {
            reveal_strlit("_");
            assert("_"@ =~= seq!['_']);
        }
        s.append("_");
        s.append(trim(note));
        proof {
            assert(decimal_digits(idx as nat) + seq!['_'] + trim_spec(note@) =~= s@);
        }
    }
    s
}

/// A snapshot name written by the engine always reads back as the index it
/// was written with, whatever the note.
pub proof fn lemma_snapshot_name_parses(idx: u64, note: Seq<char>)
    requires
        1 <= idx,
    ensures
        parse_index_spec(snapshot_name_spec(idx, note)) == Some(idx),
{
    let d = decimal_digits(idx as nat);
    lemma_decimal_digits_wf(idx as nat);
    let name = snapshot_name_spec(idx, note);
    assert forall|k: int| 0 <= k < d.len() implies name[k] != '_' by {
        assert(name[k] == d[k]);
        assert(is_digit(d[k]));
    }
    if note.len() == 0 {
        lemma_prefix_len_at(name, d.len() as int);
    } else {
        assert(name[d.len() as int] == '_');
        lemma_prefix_len_at(name, d.len() as int);
    }
    assert(name.subrange(0, d.len() as int) =~= d);
}

} // verus!
