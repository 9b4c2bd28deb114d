//! Characters and fields of a roster entry: white space, trimming, and the
//! split of an entry at its semicolons.

use vstd::prelude::*;

verus! {

/// Whether `c` is white space: one of the code points that Unicode marks as
/// `White_Space`.
pub open spec fn is_whitespace(c: char) -> bool {
    let n = c as u32;
    ||| 0x09 <= n <= 0x0D
    ||| n == 0x20
    ||| n == 0x85
    ||| n == 0xA0
    ||| n == 0x1680
    ||| 0x2000 <= n <= 0x200A
    ||| n == 0x2028
    ||| n == 0x2029
    ||| n == 0x202F
    ||| n == 0x205F
    ||| n == 0x3000
}

/// Tells whether `c` is white space.
pub fn char_is_whitespace(c: char) -> (b: bool)
    ensures
        b == is_whitespace(c),
{
    let n: u32 = c as u32;
    (0x09 <= n && n <= 0x0D) || n == 0x20 || n == 0x85 || n == 0xA0 || n == 0x1680 || (0x2000 <= n
        && n <= 0x200A) || n == 0x2028 || n == 0x2029 || n == 0x202F || n == 0x205F || n == 0x3000
}

/// The characters of `s`, in order.
pub fn chars_of(s: &str) -> (v: Vec<char>)
    ensures
        v@ == s@,
{
    let mut v: Vec<char> = Vec::new();
    for c in it: s.chars()
        invariant
            v@ == it.seq().take(it.index() as int),
            it.seq() == s@,
    {
        v.push(c);
    }
    v
}

/// `s` without the white space at its start.
pub open spec fn trim_start(s: Seq<char>) -> Seq<char>
    decreases s.len(),
{
    if s.len() > 0 && is_whitespace(s[0]) {
        trim_start(s.drop_first())
    } else {
        s
    }
}

/// `s` without the white space at its end.
pub open spec fn trim_end(s: Seq<char>) -> Seq<char>
    decreases s.len(),
{
    if s.len() > 0 && is_whitespace(s.last()) {
        trim_end(s.drop_last())
    } else {
        s
    }
}

/// `s` without the white space at either end.
pub open spec fn trim(s: Seq<char>) -> Seq<char> {
    trim_end(trim_start(s))
}

/// What `trim_start` drops is white space, and what it leaves does not
/// start with white space. The result is the number of characters dropped.
pub proof fn lemma_trim_start(s: Seq<char>) -> (a: int)
    ensures
        0 <= a <= s.len(),
        trim_start(s) == s.skip(a),
        forall|i: int| 0 <= i < a ==> is_whitespace(s[i]),
        a < s.len() ==> !is_whitespace(s[a]),
    decreases s.len(),
{
    if s.len() > 0 && is_whitespace(s[0]) {
        let rest = s.drop_first();
        let a = lemma_trim_start(rest);
        assert forall|i: int| 0 <= i < a + 1 implies is_whitespace(s[i]) by {
            if i > 0 {
                assert(rest[i - 1] == s[i]);
            }
        }
        a + 1
    } else {
        0
    }
}

/// What `trim_end` drops is white space, and what it leaves does not end
/// with white space. The result is the number of characters left.
pub proof fn lemma_trim_end(s: Seq<char>) -> (b: int)
    ensures
        0 <= b <= s.len(),
        trim_end(s) == s.take(b),
        forall|i: int| b <= i < s.len() ==> is_whitespace(s[i]),
        b > 0 ==> !is_whitespace(s[b - 1]),
    decreases s.len(),
{
    if s.len() > 0 && is_whitespace(s.last()) {
        let rest = s.drop_last();
        let b = lemma_trim_end(rest);
        assert forall|i: int| b <= i < s.len() implies is_whitespace(s[i]) by {
            if i < s.len() - 1 {
                assert(rest[i] == s[i]);
            }
        }
        b
    } else {
        s.len() as int
    }
}

/// Trimming drops white space from the two ends of `s` and nothing else: the
/// result bounds what stays, all that stands outside the bounds is white
/// space, and what stays neither starts nor ends with white space.
pub proof fn lemma_trim_bounds(s: Seq<char>) -> (r: (int, int))
    ensures
        0 <= r.0 <= r.1 <= s.len(),
        trim(s) == s.subrange(r.0, r.1),
        forall|i: int| 0 <= i < r.0 || r.1 <= i < s.len() ==> is_whitespace(s[i]),
        r.0 < r.1 ==> !is_whitespace(s[r.0]) && !is_whitespace(s[r.1 - 1]),
{
    let a = lemma_trim_start(s);
    let rest = s.skip(a);
    let b = lemma_trim_end(rest);
    assert forall|i: int| a + b <= i < s.len() implies is_whitespace(s[i]) by {
        assert(rest[i - a] == s[i]);
    }
    (a, a + b)
}

/// A stretch of a text: the characters from `start` up to, not including,
/// `end`.
#[derive(Clone, Copy, Debug)]
pub struct Span {
    pub start: usize,
    pub end: usize,
}

impl Span {
    /// Whether the stretch lies within a text of `len` characters.
    pub open spec fn within(self, len: nat) -> bool {
        self.start <= self.end <= len
    }

    /// The characters of `s` that the stretch covers.
    pub open spec fn of(self, s: Seq<char>) -> Seq<char> {
        s.subrange(self.start as int, self.end as int)
    }

    /// Tells whether the stretch covers no character.
    pub fn is_empty(&self) -> (b: bool)
        ensures
            b == (self.start == self.end),
    {
        self.start == self.end
    }
}

/// Finds the part of `s[lo..hi]` that trimming leaves: the stretch that
/// starts behind the white space at the start of `s[lo..hi]` and covers what
/// trimming leaves of it.
pub fn trim_span(s: &[char], lo: usize, hi: usize) -> (r: Span)
    requires
        lo <= hi <= s.len(),
    ensures
        lo <= r.start <= r.end <= hi,
        forall|i: int| lo <= i < r.start || r.end <= i < hi ==> is_whitespace(s@[i]),
        r.start < r.end ==> !is_whitespace(s@[r.start as int]) && !is_whitespace(s@[r.end - 1]),
        hi - r.start == trim_start(s@.subrange(lo as int, hi as int)).len(),
        r.of(s@) == trim(s@.subrange(lo as int, hi as int)),
{
    let mut a: usize = lo;
    while a < hi && char_is_whitespace(s[a])
        invariant
            lo <= a <= hi <= s.len(),
            forall|i: int| lo <= i < a ==> is_whitespace(s@[i]),
            trim_start(s@.subrange(a as int, hi as int)) == trim_start(
                s@.subrange(lo as int, hi as int),
            ),
        decreases hi - a,
    {
        assert(s@.subrange(a as int, hi as int).drop_first() == s@.subrange(a + 1, hi as int));
        a += 1;
    }
    let mut b: usize = hi;
    while a < b && char_is_whitespace(s[b - 1])
        invariant
            a <= b <= hi <= s.len(),
            forall|i: int| b <= i < hi ==> is_whitespace(s@[i]),
            trim_end(s@.subrange(a as int, b as int)) == trim_end(s@.subrange(a as int, hi as int)),
        decreases b - a,
    {
        assert(s@.subrange(a as int, b as int).drop_last() == s@.subrange(a as int, b - 1));
        b -= 1;
    }
    Span { start: a, end: b }
}

/// Tells whether `c` occurs in the stretch `span` of `s`.
pub fn span_contains(s: &[char], span: Span, c: char) -> (b: bool)
    requires
        span.within(s@.len()),
    ensures
        b == span.of(s@).contains(c),
{
    let mut i: usize = span.start;
    while i < span.end
        invariant
            span.within(s@.len()),
            span.start <= i <= span.end,
            forall|j: int| span.start <= j < i ==> s@[j] != c,
        decreases span.end - i,
    {
        if s[i] == c {
            assert(span.of(s@)[i - span.start] == c);
            return true;
        }
        i += 1;
    }
    false
}

/// The number of characters of `s` that stand before its first `;`: all of
/// them where `s` has no `;`.
pub open spec fn first_len(s: Seq<char>) -> nat
    decreases s.len(),
{
    if s.len() == 0 || s[0] == ';' {
        0
    } else {
        1 + first_len(s.drop_first())
    }
}

/// The fields of `s`: the parts that its semicolons separate, in order. A
/// text with `n` semicolons has `n + 1` fields, and any of them may be empty.
pub open spec fn fields(s: Seq<char>) -> Seq<Seq<char>>
    decreases s.len(),
{
    let n = first_len(s) as int;
    if n >= s.len() {
        seq![s]
    } else {
        seq![s.take(n)] + fields(s.skip(n + 1))
    }
}

/// The texts `parts` put together, with a `;` between neighbours.
pub open spec fn joined(parts: Seq<Seq<char>>) -> Seq<char>
    decreases parts.len(),
{
    if parts.len() == 0 {
        Seq::empty()
    } else if parts.len() == 1 {
        parts[0]
    } else {
        parts[0] + seq![';'] + joined(parts.drop_first())
    }
}

/// `first_len(s)` is where the first `;` of `s` stands, or the length of `s`
/// where it has none.
pub proof fn lemma_first_len(s: Seq<char>)
    ensures
        first_len(s) <= s.len(),
        forall|i: int| 0 <= i < first_len(s) ==> s[i] != ';',
        first_len(s) < s.len() ==> s[first_len(s) as int] == ';',
    decreases s.len(),
{
    if s.len() > 0 && s[0] != ';' {
        let rest = s.drop_first();
        lemma_first_len(rest);
        assert forall|i: int| 0 <= i < first_len(s) implies s[i] != ';' by {
            if i > 0 {
                assert(rest[i - 1] == s[i]);
            }
        }
    }
}

/// Splitting undoes joining: `s` has at least one field, no field holds a
/// `;`, and the fields put together again are `s`.
pub proof fn lemma_fields_rejoin(s: Seq<char>)
    ensures
        fields(s).len() >= 1,
        forall|k: int| 0 <= k < fields(s).len() ==> !(#[trigger] fields(s)[k]).contains(';'),
        joined(fields(s)) == s,
    decreases s.len(),
{
    lemma_first_len(s);
    let n = first_len(s) as int;
    if n < s.len() {
        let rest = s.skip(n + 1);
        lemma_fields_rejoin(rest);
        assert(fields(s).drop_first() == fields(rest));
    }
}

/// Field `k` of `s` (counted from 0) after trimming; empty where `s` has no
/// such field.
pub open spec fn field(s: Seq<char>, k: int) -> Seq<char> {
    let f = fields(s);
    if 0 <= k < f.len() {
        trim(f[k])
    } else {
        Seq::empty()
    }
}

/// The fields that are still to come when reading `s` stands at `at`: those
/// of the text from there on, or none once reading has passed the last field.
pub open spec fn fields_from(s: Seq<char>, at: Option<usize>) -> Seq<Seq<char>> {
    match at {
        Some(p) => fields(s.skip(p as int)),
        None => Seq::empty(),
    }
}

/// Finds where the field that starts at `start` ends: at the next `;`, or at
/// the end of `s`.
pub fn field_end(s: &[char], start: usize) -> (end: usize)
    requires
        start <= s.len(),
    ensures
        start <= end <= s.len(),
        forall|i: int| start <= i < end ==> s@[i] != ';',
        end < s.len() ==> s@[end as int] == ';',
        end - start == first_len(s@.skip(start as int)),
{
    let mut i: usize = start;
    while i < s.len() && s[i] != ';'
        invariant
            start <= i <= s.len(),
            forall|j: int| start <= j < i ==> s@[j] != ';',
            first_len(s@.skip(start as int)) == (i - start) + first_len(s@.skip(i as int)),
        decreases s.len() - i,
    {
        assert(s@.skip(i as int).drop_first() == s@.skip(i + 1));
        i += 1;
    }
    i
}

/// Reads one field. `at` is where it starts, or `None` once the last field
/// has been read. The result holds the stretch of `s` that the field covers
/// after trimming, and where the following field starts, if there is one.
/// Past the last field the stretch is empty and nothing follows.
pub fn next_field(s: &[char], at: Option<usize>) -> (r: (Span, Option<usize>))
    requires
        at matches Some(p) ==> p <= s.len(),
    ensures
        r.0.within(s@.len()),
        match at {
            Some(p) => {
                let end = p + first_len(s@.skip(p as int));
                let whole = s@.subrange(p as int, end);
                &&& p <= r.0.start <= r.0.end <= end <= s.len()
                &&& end - r.0.start == trim_start(whole).len()
                &&& r.0.of(s@) == trim(whole)
                &&& r.1 is Some <==> end < s.len()
                &&& r.1 matches Some(q) ==> q == end + 1
                &&& fields_from(s@, at) == seq![whole] + fields_from(s@, r.1)
            },
            None => r.0.start == 0 && r.0.end == 0 && r.1 is None,
        },
{
    match at {
        None => (Span { start: 0, end: 0 }, None),
        Some(p) => {
            let end: usize = field_end(s, p);
            let span = trim_span(s, p, end);
            let ghost rest = s@.skip(p as int);
            assert(rest.take(end - p) == s@.subrange(p as int, end as int));
            if end < s.len() {
                assert(rest.skip(end - p + 1) == s@.skip(end + 1));
                (span, Some(end + 1))
            } else {
                (span, None)
            }
        },
    }
}

} // verus!
