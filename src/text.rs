use vstd::prelude::*;
use vstd::string::*;

verus! {

/// Characters with the Unicode `White_Space` property, the set that
/// `char::is_whitespace` accepts.
pub open spec fn is_space(c: char) -> bool {
    let u = c as u32;
    ||| 0x9 <= u <= 0xd
    ||| u == 0x20
    ||| u == 0x85
    ||| u == 0xa0
    ||| u == 0x1680
    ||| 0x2000 <= u <= 0x200a
    ||| u == 0x2028
    ||| u == 0x2029
    ||| u == 0x202f
    ||| u == 0x205f
    ||| u == 0x3000
}

pub fn is_space_char(c: char) -> (r: bool)
    ensures
        r == is_space(c),
{
    let u = c as u32;
    (0x9 <= u && u <= 0xd) || u == 0x20 || u == 0x85 || u == 0xa0 || u == 0x1680 || (0x2000 <= u
        && u <= 0x200a) || u == 0x2028 || u == 0x2029 || u == 0x202f || u == 0x205f || u == 0x3000
}

/// The maximal runs of non-space characters of `s`, in order.
pub open spec fn tokens(s: Seq<char>) -> Seq<Seq<char>>
    decreases s.len(),
{
    if s.len() == 0 {
        seq![]
    } else {
        let prev = tokens(s.drop_last());
        let c = s.last();
        if is_space(c) {
            prev
        } else if s.len() >= 2 && !is_space(s[s.len() - 2]) {
            prev.drop_last().push(prev.last().push(c))
        } else {
            prev.push(seq![c])
        }
    }
}

/// The text that a span `(start, end)` of character positions covers in `s`.
pub open spec fn span_text(s: Seq<char>, sp: (usize, usize)) -> Seq<char> {
    s.subrange(sp.0 as int, sp.1 as int)
}

pub open spec fn span_texts(s: Seq<char>, spans: Seq<(usize, usize)>) -> Seq<Seq<char>> {
    spans.map_values(|sp: (usize, usize)| span_text(s, sp))
}

pub open spec fn spans_within(spans: Seq<(usize, usize)>, from: int, to: int) -> bool {
    forall|k: int| 0 <= k < spans.len() ==> from <= #[trigger] spans[k].0 <= spans[k].1 <= to
}

/// Splits the characters of `s` from position `from` on on whitespace, as
/// `str::split_whitespace` does, and gives each piece as a span of character
/// positions in `s`.
pub fn token_spans(s: &str, from: usize) -> (r: Vec<(usize, usize)>)
    requires
        from <= s@.len(),
    ensures
        spans_within(r@, from as int, s@.len() as int),
        span_texts(s@, r@) == tokens(s@.subrange(from as int, s@.len() as int)),
{
    let n = s.unicode_len();
    let mut spans: Vec<(usize, usize)> = Vec::new();
    let mut start: usize = from;
    let mut open = false;
    let mut i: usize = from;
    while i < n
        invariant
            n == s@.len(),
            from <= i <= n,
            spans_within(spans@, from as int, i as int),
            !open ==> span_texts(s@, spans@) == tokens(s@.subrange(from as int, i as int)),
            !open ==> (i == from || is_space(s@[i - 1])),
            open ==> from <= start < i,
            open ==> !is_space(s@[i - 1]),
            open ==> span_texts(s@, spans@).push(s@.subrange(start as int, i as int)) == tokens(
                s@.subrange(from as int, i as int),
            ),
        decreases n - i,
    {
        let c = s.get_char(i);
        let ghost pre = s@.subrange(from as int, i as int);
        let ghost cur = s@.subrange(from as int, i as int + 1);
        assert(cur.drop_last() =~= pre);
        assert(cur.last() == c);
        if is_space_char(c) {
            if open {
                spans.push((start, i));
                assert(span_texts(s@, spans@) =~= span_texts(s@, spans@.drop_last()).push(
                    s@.subrange(start as int, i as int),
                ));
                open = false;
            }
        } else {
            if open {
                assert(cur.len() >= 2 && cur[cur.len() - 2] == s@[i - 1]);
                assert(s@.subrange(start as int, i as int + 1) =~= s@.subrange(
                    start as int,
                    i as int,
                ).push(c));
            } else {
                if i > from {
                    assert(cur[cur.len() - 2] == s@[i - 1]);
                }
                assert(s@.subrange(i as int, i as int + 1) =~= seq![c]);
                start = i;
                open = true;
            }
        }
        assert(spans_within(spans@, from as int, i as int + 1)) by {
            assert forall|k: int| 0 <= k < spans@.len() implies from <= #[trigger] spans@[k].0
                <= spans@[k].1 <= i + 1 by {}
        }
        i = i + 1;
    }
    if open {
        spans.push((start, n));
        assert(span_texts(s@, spans@) =~= span_texts(s@, spans@.drop_last()).push(
            s@.subrange(start as int, n as int),
        ));
    }
    spans
}

pub open spec fn is_digit(c: char) -> bool {
    '0' <= c <= '9'
}

pub open spec fn digit_value(c: char) -> int {
    c as int - '0' as int
}

pub open spec fn all_digits(s: Seq<char>) -> bool {
    forall|i: int| 0 <= i < s.len() ==> is_digit(#[trigger] s[i])
}

/// The number that a string of decimal digits writes.
pub open spec fn digits_value(s: Seq<char>) -> int
    decreases s.len(),
{
    if s.len() == 0 {
        0
    } else {
        10 * digits_value(s.drop_last()) + digit_value(s.last())
    }
}

/// What `str::parse::<i16>` gives: an optional `+` or `-`, then one or more
/// ASCII digits, whose value must fit in an `i16`.
pub open spec fn parse_i16_spec(s: Seq<char>) -> Option<i16> {
    let signed = s.len() > 0 && (s[0] == '-' || s[0] == '+');
    let body = if signed { s.drop_first() } else { s };
    let v = if s.len() > 0 && s[0] == '-' { -digits_value(body) } else { digits_value(body) };
    if body.len() > 0 && all_digits(body) && i16::MIN <= v <= i16::MAX {
        Some(v as i16)
    } else {
        None
    }
}

proof fn lemma_digits_value_nonneg(s: Seq<char>)
    requires
        all_digits(s),
    ensures
        digits_value(s) >= 0,
    decreases s.len(),
{
    if s.len() > 0 {
        assert(all_digits(s.drop_last()));
        lemma_digits_value_nonneg(s.drop_last());
        assert(is_digit(s[s.len() - 1]));
    }
}

/// A prefix of a digit string never writes a larger number than the whole.
proof fn lemma_digits_value_prefix(s: Seq<char>, j: int)
    requires
        all_digits(s),
        0 <= j <= s.len(),
    ensures
        digits_value(s.take(j)) <= digits_value(s),
    decreases s.len(),
{
    if j < s.len() {
        assert(all_digits(s.drop_last()));
        lemma_digits_value_prefix(s.drop_last(), j);
        assert(s.drop_last().take(j) =~= s.take(j));
        lemma_digits_value_nonneg(s.drop_last());
        assert(is_digit(s[s.len() - 1]));
    } else {
        assert(s.take(j) =~= s);
    }
}

/// Parses the characters of `s` in `[start, end)` as `str::parse::<i16>` does.
pub fn parse_i16(s: &str, start: usize, end: usize) -> (r: Option<i16>)
    requires
        start <= end <= s@.len(),
    ensures
        r == parse_i16_spec(s@.subrange(start as int, end as int)),
{
    let ghost t = s@.subrange(start as int, end as int);
    if start == end {
        return None;
    }
    let first = s.get_char(start);
    assert(t[0] == first);
    let neg = first == '-';
    let signed = neg || first == '+';
    let b: usize = if signed { start + 1 } else { start };
    let ghost body = if signed { t.drop_first() } else { t };
    assert(body =~= s@.subrange(b as int, end as int));
    if b == end {
        return None;
    }
    let mut acc: i32 = 0;
    let mut i: usize = b;
    while i < end
        invariant
            b <= i <= end <= s@.len(),
            body == s@.subrange(b as int, end as int),
            t == s@.subrange(start as int, end as int),
            t.len() > 0 && t[0] == first,
            neg == (first == '-'),
            signed == (neg || first == '+'),
            body == (if signed { t.drop_first() } else { t }),
            all_digits(body.take(i - b)),
            acc as int == digits_value(body.take(i - b)),
            0 <= acc <= 32768,
        decreases end - i,
    {
        let c = s.get_char(i);
        assert(body[i - b] == c);
        if !('0' <= c && c <= '9') {
            assert(!all_digits(body));
            return None;
        }
        let d = (c as u32 - '0' as u32) as i32;
        assert(body.take(i - b + 1).drop_last() =~= body.take(i - b));
        acc = acc * 10 + d;
        assert(all_digits(body.take(i - b + 1)));
        i = i + 1;
        if acc > 32768 {
            proof {
                if all_digits(body) {
                    lemma_digits_value_prefix(body, i - b);
                }
            }
            return None;
        }
    }
    assert(body.take(i - b) =~= body);
    if neg {
        Some((-acc) as i16)
    } else if acc <= 32767 {
        Some(acc as i16)
    } else {
        None
    }
}

} // verus!
