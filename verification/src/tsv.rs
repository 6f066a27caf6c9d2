//! Splitting tab-separated schema documents into lines and fields, and
//! reading their unsigned numbers.
use vstd::prelude::*;
use vstd::string::*;

verus! {

/// The position of the first `c` in `s`, if any.
pub open spec fn first_index_of(s: Seq<char>, c: char) -> Option<int>
    decreases s.len(),
{
    if s.len() == 0 {
        None
    } else if s[0] == c {
        Some(0)
    } else {
        match first_index_of(s.drop_first(), c) {
            Some(i) => Some(i + 1),
            None => None,
        }
    }
}

/// A line without the carriage return that ends it, if any.
pub open spec fn strip_carriage_return(l: Seq<char>) -> Seq<char> {
    if l.len() > 0 && l.last() == '\r' {
        l.drop_last()
    } else {
        l
    }
}

/// The lines of a text: split at each line feed, a carriage return just
/// before a line feed dropped, and no empty last line after a final line feed.
pub open spec fn text_lines(s: Seq<char>) -> Seq<Seq<char>>
    decreases s.len(),
{
    if s.len() == 0 {
        Seq::empty()
    } else {
        match first_index_of(s, '\n') {
            Some(i) => if 0 <= i < s.len() {
                seq![strip_carriage_return(s.take(i))] + text_lines(s.skip(i + 1))
            } else {
                Seq::empty()
            },
            None => seq![s],
        }
    }
}

/// The pieces of `s` between occurrences of `sep`; at least one piece.
pub open spec fn split_on(s: Seq<char>, sep: char) -> Seq<Seq<char>>
    decreases s.len(),
{
    match first_index_of(s, sep) {
        Some(i) => if 0 <= i < s.len() {
            seq![s.take(i)] + split_on(s.skip(i + 1), sep)
        } else {
            seq![s]
        },
        None => seq![s],
    }
}

proof fn lemma_first_index_of(s: Seq<char>, c: char)
    ensures
        match first_index_of(s, c) {
            Some(i) => 0 <= i < s.len() && s[i] == c && forall|k: int| 0 <= k < i ==> s[k] != c,
            None => forall|k: int| 0 <= k < s.len() ==> s[k] != c,
        },
    decreases s.len(),
{
    if s.len() > 0 && s[0] != c {
        lemma_first_index_of(s.drop_first(), c);
        match first_index_of(s.drop_first(), c) {
            Some(i) => {
                assert forall|k: int| 0 <= k < i + 1 implies s[k] != c by {
                    if k > 0 {
                        assert(s[k] == s.drop_first()[k - 1]);
                    }
                }
            },
            None => {
                assert forall|k: int| 0 <= k < s.len() implies s[k] != c by {
                    if k > 0 {
                        assert(s[k] == s.drop_first()[k - 1]);
                    }
                }
            },
        }
    }
}

/// The first position at or after `from` holding `c` in `chars`, or the end.
fn scan_to(chars: &Vec<char>, from: usize, c: char) -> (r: usize)
    requires
        from <= chars@.len(),
    ensures
        from <= r <= chars@.len(),
        forall|k: int| from <= k < r ==> chars@[k] != c,
        r < chars@.len() ==> chars@[r as int] == c,
{
    let mut i = from;
    while i < chars.len()
        invariant
            from <= i <= chars@.len(),
            forall|k: int| from <= k < i ==> chars@[k] != c,
        decreases chars.len() - i,
    {
        if chars[i] == c {
            return i;
        }
        i = i + 1;
    }
    i
}

pub proof fn lemma_first_index_from(s: Seq<char>, c: char, r: int)
    requires
        0 <= r <= s.len(),
        forall|k: int| 0 <= k < r ==> s[k] != c,
        r < s.len() ==> s[r] == c,
    ensures
        first_index_of(s, c) == if r < s.len() {
            Some(r)
        } else {
            None::<int>
        },
{
    lemma_first_index_of(s, c);
}

/// The characters of `s`.
pub fn chars_of(s: &str) -> (r: Vec<char>)
    ensures
        r@ == s@,
{
    let n = s.unicode_len();
    let mut out: Vec<char> = Vec::new();
    let mut i: usize = 0;
    while i < n
        invariant
            n == s@.len(),
            i <= n,
            out@ == s@.take(i as int),
        decreases n - i,
    {
        out.push(s.get_char(i));
        i = i + 1;
        assert(out@ =~= s@.take(i as int));
    }
    assert(s@.take(n as int) =~= s@);
    out
}

/// The pieces of `s` between occurrences of `sep`.
pub fn split_text<'a>(s: &'a str, sep: char) -> (r: Vec<&'a str>)
    ensures
        r@.len() == split_on(s@, sep).len(),
        forall|k: int| 0 <= k < r@.len() ==> (#[trigger] r@[k])@ == split_on(s@, sep)[k],
{
    let chars = chars_of(s);
    let n = chars.len();
    let mut out: Vec<&'a str> = Vec::new();
    let mut start: usize = 0;
    assert(s@.skip(0) =~= s@);
    loop
        invariant_except_break
            out@.len() + split_on(s@.skip(start as int), sep).len() == split_on(s@, sep).len(),
            forall|k: int|
                0 <= k < split_on(s@.skip(start as int), sep).len() ==> split_on(s@, sep)[out@.len() + k]
                    == #[trigger] split_on(s@.skip(start as int), sep)[k],
        invariant
            start <= n,
            n == s@.len(),
            chars@ == s@,
            forall|k: int| 0 <= k < out@.len() ==> (#[trigger] out@[k])@ == split_on(s@, sep)[k],
        ensures
            out@.len() == split_on(s@, sep).len(),
            forall|k: int| 0 <= k < out@.len() ==> (#[trigger] out@[k])@ == split_on(s@, sep)[k],
        decreases n - start,
    {
        let ghost rest = s@.skip(start as int);
        let end = scan_to(&chars, start, sep);
        proof {
            assert forall|k: int| 0 <= k < end - start implies rest[k] != sep by {
                assert(rest[k] == chars@[start + k]);
            }
            if end < n {
                assert(rest[end - start] == chars@[end as int]);
            }
            lemma_first_index_from(rest, sep, end - start);
        }
        let piece = s.substring_char(start, end);
        proof {
            assert(piece@ =~= rest.take(end - start));
        }
        let ghost total = split_on(s@, sep);
        let ghost before = out@;
        if end < n {
            let ghost next = s@.skip(end + 1);
            proof {
                assert(rest.skip(end - start + 1) =~= next);
                assert(split_on(rest, sep) == seq![rest.take(end - start)] + split_on(next, sep));
                assert(total[before.len() as int] == split_on(rest, sep)[0]);
            }
            out.push(piece);
            start = end + 1;
            proof {
                assert forall|k: int| 0 <= k < out@.len() implies (#[trigger] out@[k])@ == total[k] by {
                    if k < before.len() {
                        assert(out@[k] == before[k]);
                    }
                }
                assert forall|k: int| 0 <= k < split_on(next, sep).len() implies total[out@.len() + k]
                    == #[trigger] split_on(next, sep)[k] by {
                    assert(split_on(rest, sep)[k + 1] == split_on(next, sep)[k]);
                }
            }
        } else {
            proof {
                assert(split_on(rest, sep) == seq![rest]);
                assert(rest.take(end - start) =~= rest);
                assert(total[before.len() as int] == split_on(rest, sep)[0]);
            }
            out.push(piece);
            proof {
                assert(split_on(rest, sep).len() == 1);
                assert(out@.len() == total.len());
                assert forall|k: int| 0 <= k < out@.len() implies (#[trigger] out@[k])@ == total[k] by {
                    if k < before.len() {
                        assert(out@[k] == before[k]);
                    }
                }
            }
            break;
        }
    }
    out
}

/// The lines of `s`, as `text_lines` describes them.
pub fn split_lines<'a>(s: &'a str) -> (r: Vec<&'a str>)
    ensures
        r@.len() == text_lines(s@).len(),
        forall|k: int| 0 <= k < r@.len() ==> (#[trigger] r@[k])@ == text_lines(s@)[k],
{
    let chars = chars_of(s);
    let n = chars.len();
    let mut out: Vec<&'a str> = Vec::new();
    let mut start: usize = 0;
    assert(s@.skip(0) =~= s@);
    while start < n
        invariant
            start <= n,
            n == s@.len(),
            chars@ == s@,
            forall|k: int| 0 <= k < out@.len() ==> (#[trigger] out@[k])@ == text_lines(s@)[k],
            out@.len() + text_lines(s@.skip(start as int)).len() == text_lines(s@).len(),
            forall|k: int|
                0 <= k < text_lines(s@.skip(start as int)).len() ==> text_lines(s@)[out@.len() + k]
                    == #[trigger] text_lines(s@.skip(start as int))[k],
        decreases n - start,
    {
        let ghost rest = s@.skip(start as int);
        let ghost total = text_lines(s@);
        let ghost before = out@;
        let end = scan_to(&chars, start, '\n');
        proof {
            assert forall|k: int| 0 <= k < end - start implies rest[k] != '\n' by {
                assert(rest[k] == chars@[start + k]);
            }
            if end < n {
                assert(rest[end - start] == chars@[end as int]);
            }
            lemma_first_index_from(rest, '\n', end - start);
        }
        if end < n {
            let stop = if end > start && chars[end - 1] == '\r' {
                end - 1
            } else {
                end
            };
            let piece = s.substring_char(start, stop);
            let ghost next = s@.skip(end + 1);
            proof {
                assert(rest.skip(end - start + 1) =~= next);
                let line = rest.take(end - start);
                if end > start {
                    assert(line.last() == chars@[end - 1]);
                }
                assert(piece@ =~= strip_carriage_return(line));
                assert(text_lines(rest) == seq![strip_carriage_return(line)] + text_lines(next));
                assert(total[before.len() as int] == text_lines(rest)[0]);
            }
            out.push(piece);
            start = end + 1;
            proof {
                assert forall|k: int| 0 <= k < out@.len() implies (#[trigger] out@[k])@ == total[k] by {
                    if k < before.len() {
                        assert(out@[k] == before[k]);
                    }
                }
                assert forall|k: int| 0 <= k < text_lines(next).len() implies total[out@.len() + k]
                    == #[trigger] text_lines(next)[k] by {
                    assert(text_lines(rest)[k + 1] == text_lines(next)[k]);
                }
            }
        } else {
            let piece = s.substring_char(start, n);
            proof {
                assert(piece@ =~= rest);
                assert(text_lines(rest) == seq![rest]);
                assert(total[before.len() as int] == text_lines(rest)[0]);
            }
            out.push(piece);
            start = n;
            proof {
                assert(s@.skip(n as int) =~= Seq::<char>::empty());
                assert forall|k: int| 0 <= k < out@.len() implies (#[trigger] out@[k])@ == total[k] by {
                    if k < before.len() {
                        assert(out@[k] == before[k]);
                    }
                }
            }
        }
    }
    proof {
        assert(s@.skip(start as int) =~= Seq::<char>::empty());
    }
    out
}

/// Whether `c` is an ASCII decimal digit.
pub open spec fn is_digit(c: char) -> bool {
    '0' <= c <= '9'
}

/// Every character of `s` is a decimal digit.
pub open spec fn all_digits(s: Seq<char>) -> bool {
    forall|k: int| 0 <= k < s.len() ==> is_digit(#[trigger] s[k])
}

/// The value of a string of decimal digits.
pub open spec fn decimal_value(s: Seq<char>) -> nat
    decreases s.len(),
{
    if s.len() == 0 {
        0
    } else {
        decimal_value(s.drop_last()) * 10 + ((s.last() as int) - ('0' as int)) as nat
    }
}

/// What reading an unsigned number not above `max` gives, as the standard
/// library's integer parsing does: an optional `+`, then one or more digits.
pub open spec fn unsigned_value(s: Seq<char>, max: nat) -> Option<nat> {
    let body = if s.len() > 1 && s[0] == '+' {
        s.drop_first()
    } else {
        s
    };
    if body.len() > 0 && all_digits(body) && decimal_value(body) <= max {
        Some(decimal_value(body))
    } else {
        None
    }
}

proof fn lemma_decimal_value_monotone(s: Seq<char>, i: int)
    requires
        0 <= i <= s.len(),
        forall|k: int| 0 <= k < s.len() ==> is_digit(#[trigger] s[k]),
    ensures
        decimal_value(s.take(i)) <= decimal_value(s),
    decreases s.len() - i,
{
    if i < s.len() {
        lemma_decimal_value_monotone(s, i + 1);
        assert(s.take(i + 1).drop_last() =~= s.take(i));
        assert(s.take(i + 1).last() == s[i]);
    } else {
        assert(s.take(i) =~= s);
    }
}

/// Reads an unsigned number not above `max`.
pub fn parse_unsigned(s: &str, max: u64) -> (r: Option<u64>)
    ensures
        r == match unsigned_value(s@, max as nat) {
            Some(v) => Some(v as u64),
            None => None::<u64>,
        },
{
    let chars = chars_of(s);
    let n = chars.len();
    let start: usize = if n > 1 && chars[0] == '+' {
        1
    } else {
        0
    };
    let ghost body = s@.skip(start as int);
    proof {
        if start == 1 {
            assert(body =~= s@.drop_first());
        } else {
            assert(body =~= s@);
        }
    }
    if start == n {
        proof {
            assert(body.len() == 0);
        }
        return None;
    }
    let mut value: u64 = 0;
    let mut i: usize = start;
    while i < n
        invariant
            start <= i <= n,
            start < n,
            n == s@.len(),
            chars@ == s@,
            body == s@.skip(start as int),
            body == (if s@.len() > 1 && s@[0] == '+' {
                s@.drop_first()
            } else {
                s@
            }),
            value as nat == decimal_value(body.take(i - start)),
            value <= max,
            forall|k: int| 0 <= k < i - start ==> is_digit(#[trigger] body[k]),
        decreases n - i,
    {
        let c = chars[i];
        proof {
            assert(body[i - start] == c);
        }
        if !('0' <= c && c <= '9') {
            proof {
                assert(!is_digit(body[i - start]));
                assert(!all_digits(body));
            }
            return None;
        }
        let digit = (c as u32 - '0' as u32) as u64;
        proof {
            assert(body.take(i - start + 1).drop_last() =~= body.take(i - start));
            assert(body.take(i - start + 1).last() == c);
        }
        if digit > max || value > (max - digit) / 10 {
            proof {
                assert(decimal_value(body.take(i - start + 1)) == value * 10 + digit);
                if digit <= max {
                    assert(value * 10 + digit > max) by (nonlinear_arith)
                        requires
                            value > (max - digit) / 10,
                            digit <= 9,
                            digit <= max,
                    ;
                }
                if all_digits(body) {
                    lemma_decimal_value_monotone(body, i - start + 1);
                    assert(decimal_value(body) > max);
                }
            }
            return None;
        }
        proof {
            assert(value * 10 + digit <= max) by (nonlinear_arith)
                requires
                    value <= (max - digit) / 10,
                    digit <= max,
            ;
        }
        value = value * 10 + digit;
        i = i + 1;
    }
    proof {
        assert(body.take(n - start) =~= body);
    }
    Some(value)
}

} // verus!
