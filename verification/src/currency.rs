//! The euro currency value and its textual forms: an amount of whole
//! units written as `€n`, `n€`, `n Euro` or `n Euros` (the unit name
//! matched regardless of case).

use vstd::prelude::*;
use vstd::string::StrSliceExecFns;

verus! {

/// A whole number of currency units.
pub type Units = u64;

/// An amount of euros.
#[derive(Debug, PartialEq, Eq, Structural, Clone, Copy)]
pub struct Euro(pub Units);

/// One euro.
pub fn euro() -> (r: Euro)
    ensures
        r.0 == 1,
{
    Euro::from(1u64)
}

impl From<u64> for Euro {
    fn from(units: u64) -> (r: Self) {
        Euro(units)
    }
}

impl vstd::std_specs::convert::FromSpecImpl<u64> for Euro {
    open spec fn obeys_from_spec() -> bool {
        true
    }

    open spec fn from_spec(units: u64) -> Self {
        Euro(units)
    }
}

/// Whether `c` is a decimal digit.
pub open spec fn is_digit_char(c: char) -> bool {
    '0' <= c <= '9'
}

/// The value of the digit `c`.
pub open spec fn digit_val(c: char) -> int {
    c as int - '0' as int
}

/// The decimal value of an all-digit character sequence.
pub open spec fn digits_val(s: Seq<char>) -> int
    decreases s.len(),
{
    if s.len() == 0 {
        0
    } else {
        digits_val(s.drop_last()) * 10 + digit_val(s.last())
    }
}

/// Whether every character of `s` in `[a, b)` is a digit.
pub open spec fn digits_upto(s: Seq<char>, a: int, b: int) -> bool {
    forall|k: int| a <= k < b ==> is_digit_char(#[trigger] s[k])
}

/// Whether `n` ends the maximal nonempty digit run of `s` starting at `a`.
pub open spec fn run_end(s: Seq<char>, a: int, n: int) -> bool {
    &&& a < n <= s.len()
    &&& digits_upto(s, a, n)
    &&& (n == s.len() || !is_digit_char(s[n]))
}

/// Whether the unit word ` Euro`, in any letter case, stands at `n`.
pub open spec fn euro_word_at(s: Seq<char>, n: int) -> bool {
    &&& 0 <= n && n + 5 <= s.len()
    &&& s[n] == ' '
    &&& (s[n + 1] == 'e' || s[n + 1] == 'E')
    &&& (s[n + 2] == 'u' || s[n + 2] == 'U')
    &&& (s[n + 3] == 'r' || s[n + 3] == 'R')
    &&& (s[n + 4] == 'o' || s[n + 4] == 'O')
}

/// Whether the unit word ` Euros`, in any letter case, stands at `n`.
pub open spec fn euros_word_at(s: Seq<char>, n: int) -> bool {
    &&& euro_word_at(s, n)
    &&& n + 6 <= s.len()
    &&& (s[n + 5] == 's' || s[n + 5] == 'S')
}

/// Whether the input matches one of the accepted euro forms, with the
/// digit run ending at `n` and a value that fits the unit type.
pub open spec fn euro_form_at(s: Seq<char>, n: int) -> bool {
    ||| (s.len() >= 1 && s[0] == '€' && run_end(s, 1, n) && digits_val(s.subrange(1, n))
        <= u64::MAX)
    ||| (run_end(s, 0, n) && digits_val(s.subrange(0, n)) <= u64::MAX && ((n < s.len() && s[n]
        == '€') || euro_word_at(s, n)))
}

/// An all-digit sequence has a value of at least zero.
proof fn lemma_digits_val_nonneg(t: Seq<char>)
    requires
        forall|k: int| 0 <= k < t.len() ==> is_digit_char(#[trigger] t[k]),
    ensures
        digits_val(t) >= 0,
    decreases t.len(),
{
    if t.len() > 0 {
        assert(forall|k: int|
            0 <= k < t.drop_last().len() ==> is_digit_char(#[trigger] t.drop_last()[k]));
        lemma_digits_val_nonneg(t.drop_last());
    }
}

/// Every prefix of an all-digit sequence is worth no more than the whole.
proof fn lemma_digits_prefix_le(t: Seq<char>, m: int)
    requires
        0 <= m <= t.len(),
        forall|k: int| 0 <= k < t.len() ==> is_digit_char(#[trigger] t[k]),
    ensures
        digits_val(t.take(m)) <= digits_val(t),
    decreases t.len() - m,
{
    if m == t.len() {
        assert(t.take(m) =~= t);
    } else {
        assert(t.take(m + 1).drop_last() =~= t.take(m));
        assert(t.take(m + 1).last() == t[m]);
        assert(forall|k: int|
            0 <= k < t.take(m).len() ==> is_digit_char(#[trigger] t.take(m)[k]));
        lemma_digits_val_nonneg(t.take(m));
        assert(digits_val(t.take(m + 1)) >= digits_val(t.take(m)));
        lemma_digits_prefix_le(t, m + 1);
    }
}

impl Euro {
    /// Reads the maximal digit run of `input` starting at `from` as a
    /// unit value.  Fails when no digit stands at `from` or the run's
    /// value exceeds the unit type.
    fn parse_units_from(input: &str, from: usize) -> (r: Option<(usize, u64)>)
        requires
            from <= input@.len(),
        ensures
            r matches Some(p) ==> {
                &&& run_end(input@, from as int, p.0 as int)
                &&& p.1 == digits_val(input@.subrange(from as int, p.0 as int))
            },
            r is None ==> (from == input@.len() || !is_digit_char(input@[from as int]) || exists|
                n: int,
            |
                #[trigger] run_end(input@, from as int, n) && digits_val(
                    input@.subrange(from as int, n),
                ) > u64::MAX),
    {
        let len = input.unicode_len();
        let mut i: usize = from;
        let mut v: u64 = 0;
        proof {
            assert(input@.subrange(from as int, from as int) =~= Seq::<char>::empty());
        }
        while i < len
            invariant
                len == input@.len(),
                from <= i <= len,
                digits_upto(input@, from as int, i as int),
                v == digits_val(input@.subrange(from as int, i as int)),
            ensures
                from <= i <= len,
                digits_upto(input@, from as int, i as int),
                v == digits_val(input@.subrange(from as int, i as int)),
                i == len || !is_digit_char(input@[i as int]),
            decreases len - i,
        {
            let c = input.get_char(i);
            if !('0' <= c && c <= '9') {
                break;
            }
            let d: u64 = (c as u32 - 48) as u64;
            proof {
                assert(input@.subrange(from as int, i + 1).drop_last() =~= input@.subrange(
                    from as int,
                    i as int,
                ));
                assert(input@.subrange(from as int, i + 1).last() == input@[i as int]);
                assert(d == digit_val(input@[i as int]));
            }
            if v > u64::MAX / 10 || (v == u64::MAX / 10 && d > u64::MAX % 10) {
                // the run's value exceeds the unit type: locate its end
                let mut j: usize = i + 1;
                while j < len
                    invariant
                        len == input@.len(),
                        from <= i < j <= len,
                        digits_upto(input@, from as int, j as int),
                    ensures
                        from <= i < j <= len,
                        digits_upto(input@, from as int, j as int),
                        j == len || !is_digit_char(input@[j as int]),
                    decreases len - j,
                {
                    let c2 = input.get_char(j);
                    if !('0' <= c2 && c2 <= '9') {
                        break;
                    }
                    j += 1;
                }
                proof {
                    let s = input@;
                    let jj = j as int;
                    assert(run_end(s, from as int, jj));
                    let t = s.subrange(from as int, jj);
                    assert(forall|k: int| 0 <= k < t.len() ==> is_digit_char(#[trigger] t[k]));
                    assert(t.take(i + 1 - from) =~= s.subrange(from as int, i + 1));
                    lemma_digits_prefix_le(t, i + 1 - from);
                    assert(digits_val(s.subrange(from as int, i + 1)) > u64::MAX);
                }
                return None;
            }
            v = v * 10 + d;
            i += 1;
        }
        if i == from {
            return None;
        }
        proof {
            assert(run_end(input@, from as int, i as int));
        }
        Some((i, v))
    }

    /// Whether the unit word ` Euro`, in any letter case, stands at `at`.
    fn euro_word(input: &str, at: usize) -> (r: bool)
        requires
            at <= input@.len(),
        ensures
            r == euro_word_at(input@, at as int),
    {
        let len = input.unicode_len();
        if at > usize::MAX - 5 || at + 5 > len {
            return false;
        }
        let c0 = input.get_char(at);
        let c1 = input.get_char(at + 1);
        let c2 = input.get_char(at + 2);
        let c3 = input.get_char(at + 3);
        let c4 = input.get_char(at + 4);
        c0 == ' ' && (c1 == 'e' || c1 == 'E') && (c2 == 'u' || c2 == 'U') && (c3 == 'r' || c3
            == 'R') && (c4 == 'o' || c4 == 'O')
    }

    /// Whether the unit word ` Euros`, in any letter case, stands at `at`.
    fn euros_word(input: &str, at: usize) -> (r: bool)
        requires
            at <= input@.len(),
        ensures
            r == euros_word_at(input@, at as int),
    {
        if !Self::euro_word(input, at) {
            return false;
        }
        let len = input.unicode_len();
        if at > usize::MAX - 6 || at + 6 > len {
            return false;
        }
        let c5 = input.get_char(at + 5);
        c5 == 's' || c5 == 'S'
    }

    /// Parses an amount of euros from the front of `input`: one of the
    /// forms `€n`, `n€`, `n Euros` or `n Euro` (unit word case
    /// insensitive, the plural preferred), where `n` is a maximal digit
    /// run whose value fits the unit type.  Returns the remaining input
    /// beside the amount.
    pub fn parse(input: &str) -> (r: Option<(String, Euro)>)
        ensures
            r is Some <==> exists|n: int| #[trigger] euro_form_at(input@, n),
            r matches Some(p) ==> exists|n: int|
                #[trigger] euro_form_at(input@, n) && {
                    ||| (input@.len() >= 1 && input@[0] == '€' && run_end(input@, 1, n)
                        && p.1.0 == digits_val(input@.subrange(1, n)) && p.0@ == input@.subrange(
                        n,
                        input@.len() as int,
                    ))
                    ||| (run_end(input@, 0, n) && p.1.0 == digits_val(input@.subrange(0, n)) && (
                    (n < input@.len() && input@[n] == '€' && p.0@ == input@.subrange(
                        n + 1,
                        input@.len() as int,
                    )) || (euros_word_at(input@, n) && p.0@ == input@.subrange(
                        n + 6,
                        input@.len() as int,
                    )) || (euro_word_at(input@, n) && !euros_word_at(input@, n) && p.0@
                        == input@.subrange(n + 5, input@.len() as int))))
                },
    {
        let len = input.unicode_len();
        if len >= 1 && input.get_char(0) == '€' {
            match Self::parse_units_from(input, 1) {
                Some((end, v)) => {
                    let rest = input.substring_char(end, len).to_owned();
                    proof {
                        assert(euro_form_at(input@, end as int));
                    }
                    return Some((rest, Euro(v)));
                },
                None => {
                    proof {
                        assert forall|n: int| !(#[trigger] euro_form_at(input@, n)) by {
                            if euro_form_at(input@, n) {
                                if run_end(input@, 0, n) {
                                    assert(is_digit_char(input@[0]));
                                } else {
                                    assert(run_end(input@, 1, n));
                                    lemma_run_end_unique(input@, 1, n);
                                }
                            }
                        }
                    }
                    return None;
                },
            }
        }
        match Self::parse_units_from(input, 0) {
            None => {
                proof {
                    assert forall|n: int| !(#[trigger] euro_form_at(input@, n)) by {
                        if euro_form_at(input@, n) {
                            if input@.len() >= 1 && input@[0] == '€' {
                                assert(!is_digit_char(input@[0]));
                            }
                            if run_end(input@, 0, n) {
                                assert(is_digit_char(input@[0]));
                                lemma_run_end_unique(input@, 0, n);
                            }
                        }
                    }
                }
                None
            },
            Some((end, v)) => {
                if end < len && input.get_char(end) == '€' {
                    let rest = input.substring_char(end + 1, len).to_owned();
                    proof {
                        assert(euro_form_at(input@, end as int));
                    }
                    Some((rest, Euro(v)))
                } else if Self::euros_word(input, end) {
                    let rest = input.substring_char(end + 6, len).to_owned();
                    proof {
                        assert(euro_form_at(input@, end as int));
                    }
                    Some((rest, Euro(v)))
                } else if Self::euro_word(input, end) {
                    let rest = input.substring_char(end + 5, len).to_owned();
                    proof {
                        assert(euro_form_at(input@, end as int));
                    }
                    Some((rest, Euro(v)))
                } else {
                    proof {
                        assert forall|n: int| !(#[trigger] euro_form_at(input@, n)) by {
                            if euro_form_at(input@, n) {
                                if input@.len() >= 1 && input@[0] == '€' {
                                    assert(!is_digit_char(input@[0]));
                                }
                                if run_end(input@, 0, n) {
                                    lemma_run_end_unique2(input@, 0, n, end as int);
                                }
                            }
                        }
                    }
                    None
                }
            },
        }
    }
}

/// Two maximal digit runs from the same start coincide.
proof fn lemma_run_end_unique2(s: Seq<char>, a: int, n1: int, n2: int)
    requires
        run_end(s, a, n1),
        run_end(s, a, n2),
    ensures
        n1 == n2,
{
    if n1 < n2 {
        assert(is_digit_char(s[n1]));
    }
    if n2 < n1 {
        assert(is_digit_char(s[n2]));
    }
}

/// A maximal digit run whose value overflows leaves no fitting form.
proof fn lemma_run_end_unique(s: Seq<char>, a: int, n: int)
    requires
        run_end(s, a, n),
    ensures
        forall|n2: int| #[trigger] run_end(s, a, n2) ==> n2 == n,
{
    assert forall|n2: int| #[trigger] run_end(s, a, n2) implies n2 == n by {
        lemma_run_end_unique2(s, a, n2, n);
    }
}

} // verus!
