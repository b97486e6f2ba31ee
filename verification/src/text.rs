//! Text as sequences of characters: comparison, trimming, cutting, and the
//! decimal notation of integers.
use vstd::prelude::*;

verus! {

/// Appends one character: `String::push` leaves the text extended by `ch` at its end.
pub assume_specification[ String::push ](s: &mut String, ch: char)
    ensures
        final(s)@ == old(s)@.push(ch),
;

// ---------------------------------------------------------------------------
// Order
// ---------------------------------------------------------------------------

/// `a` comes before `b` in the order of their characters, the order in which
/// `str` values compare: UTF-8 keeps the order of code points.
pub open spec fn lex_less(a: Seq<char>, b: Seq<char>) -> bool
    decreases a.len(),
{
    if b.len() == 0 {
        false
    } else if a.len() == 0 {
        true
    } else if a[0] != b[0] {
        a[0] < b[0]
    } else {
        lex_less(a.drop_first(), b.drop_first())
    }
}

pub proof fn lemma_lex_irreflexive(a: Seq<char>)
    ensures
        !lex_less(a, a),
    decreases a.len(),
{
    if a.len() > 0 {
        lemma_lex_irreflexive(a.drop_first());
    }
}

pub proof fn lemma_lex_transitive(a: Seq<char>, b: Seq<char>, c: Seq<char>)
    requires
        lex_less(a, b),
        lex_less(b, c),
    ensures
        lex_less(a, c),
    decreases a.len(),
{
    if a.len() > 0 && a[0] == b[0] && b[0] == c[0] {
        lemma_lex_transitive(a.drop_first(), b.drop_first(), c.drop_first());
    }
}

pub proof fn lemma_lex_total(a: Seq<char>, b: Seq<char>)
    ensures
        lex_less(a, b) || a == b || lex_less(b, a),
    decreases a.len(),
{
    if a.len() > 0 && b.len() > 0 {
        if a[0] == b[0] {
            lemma_lex_total(a.drop_first(), b.drop_first());
            if a.drop_first() == b.drop_first() {
                assert(a =~= seq![a[0]] + a.drop_first());
                assert(b =~= seq![b[0]] + b.drop_first());
            }
        }
    } else if a.len() == 0 && b.len() == 0 {
        assert(a =~= b);
    }
}

/// The characters of `text`, in order.
pub fn chars_of(text: &str) -> (chars: Vec<char>)
    ensures
        chars@ == text@,
{
    let mut chars: Vec<char> = Vec::new();
    for c in it: text.chars()
        invariant
            it.seq() == text@,
            chars@ == text@.take(it.index()),
    {
        chars.push(c);
    }
    assert(text@.take(text@.len() as int) == text@);
    chars
}

/// The text made of `chars[from..to]`.
pub fn text_between(chars: &Vec<char>, from: usize, to: usize) -> (text: String)
    requires
        from <= to <= chars@.len(),
    ensures
        text@ == chars@.subrange(from as int, to as int),
{
    let mut text = String::new();
    let mut i: usize = from;
    while i < to
        invariant
            from <= i <= to <= chars@.len(),
            text@ == chars@.subrange(from as int, i as int),
        decreases to - i,
    {
        text.push(chars[i]);
        i = i + 1;
        assert(chars@.subrange(from as int, i as int) == chars@.subrange(
            from as int,
            i - 1,
        ).push(chars@[i - 1]));
    }
    text
}

/// Whether two texts hold the same characters.
pub fn same_text(a: &str, b: &str) -> (same: bool)
    ensures
        same == (a@ == b@),
{
    same_chars(&chars_of(a), &chars_of(b))
}

pub fn same_chars(a: &Vec<char>, b: &Vec<char>) -> (same: bool)
    ensures
        same == (a@ == b@),
{
    if a.len() != b.len() {
        return false;
    }
    let mut i: usize = 0;
    while i < a.len()
        invariant
            i <= a@.len(),
            a@.len() == b@.len(),
            forall|j: int| 0 <= j < i ==> a@[j] == b@[j],
        decreases a@.len() - i,
    {
        if a[i] != b[i] {
            return false;
        }
        i = i + 1;
    }
    assert(a@ =~= b@);
    true
}

/// Whether `a` comes strictly before `b`.
pub fn text_less(a: &str, b: &str) -> (less: bool)
    ensures
        less == lex_less(a@, b@),
{
    chars_less(&chars_of(a), &chars_of(b))
}

fn chars_less(a: &Vec<char>, b: &Vec<char>) -> (less: bool)
    ensures
        less == lex_less(a@, b@),
{
    let mut i: usize = 0;
    proof {
        assert(a@.skip(0) == a@);
        assert(b@.skip(0) == b@);
    }
    while i < a.len() && i < b.len() && a[i] == b[i]
        invariant
            i <= a@.len(),
            i <= b@.len(),
            lex_less(a@, b@) == lex_less(a@.skip(i as int), b@.skip(i as int)),
        decreases a@.len() - i,
    {
        assert(a@.skip(i as int).drop_first() == a@.skip(i + 1));
        assert(b@.skip(i as int).drop_first() == b@.skip(i + 1));
        i = i + 1;
    }
    if i == b.len() {
        false
    } else if i == a.len() {
        true
    } else {
        a[i] < b[i]
    }
}

// ---------------------------------------------------------------------------
// Prefixes, suffixes, search
// ---------------------------------------------------------------------------

/// `part` stands in `whole` at position `at`.
pub open spec fn occurs_at(whole: Seq<char>, part: Seq<char>, at: int) -> bool {
    0 <= at && at + part.len() <= whole.len() && whole.subrange(at, at + part.len()) == part
}

/// `part` stands somewhere in `whole`.
pub open spec fn has_part(whole: Seq<char>, part: Seq<char>) -> bool {
    exists|at: int| occurs_at(whole, part, at)
}

pub open spec fn has_prefix(whole: Seq<char>, part: Seq<char>) -> bool {
    occurs_at(whole, part, 0)
}

pub open spec fn has_suffix(whole: Seq<char>, part: Seq<char>) -> bool {
    occurs_at(whole, part, whole.len() - part.len())
}

fn chars_at(whole: &Vec<char>, part: &Vec<char>, at: usize) -> (found: bool)
    requires
        at <= whole@.len(),
    ensures
        found == occurs_at(whole@, part@, at as int),
{
    if part.len() > whole.len() - at {
        return false;
    }
    let mut i: usize = 0;
    while i < part.len()
        invariant
            i <= part@.len(),
            at + part@.len() <= whole@.len() <= usize::MAX,
            forall|j: int| 0 <= j < i ==> whole@[at + j] == part@[j],
        decreases part@.len() - i,
    {
        if whole[at + i] != part[i] {
            proof {
                if occurs_at(whole@, part@, at as int) {
                    assert(whole@.subrange(at as int, at + part@.len())[i as int] == part@[i as int]);
                }
            }
            return false;
        }
        i = i + 1;
    }
    assert(whole@.subrange(at as int, at + part@.len()) =~= part@);
    true
}

pub fn starts_with(whole: &str, part: &str) -> (found: bool)
    ensures
        found == has_prefix(whole@, part@),
{
    chars_at(&chars_of(whole), &chars_of(part), 0)
}

pub fn ends_with(whole: &str, part: &str) -> (found: bool)
    ensures
        found == has_suffix(whole@, part@),
{
    let w = chars_of(whole);
    let p = chars_of(part);
    if p.len() > w.len() {
        false
    } else {
        chars_at(&w, &p, w.len() - p.len())
    }
}

/// Whether `part` stands somewhere in `whole`.
pub fn contains(whole: &str, part: &str) -> (found: bool)
    ensures
        found == has_part(whole@, part@),
{
    let w = chars_of(whole);
    let p = chars_of(part);
    let mut at: usize = 0;
    while at < w.len()
        invariant
            at <= w@.len(),
            w@ == whole@,
            p@ == part@,
            forall|i: int| 0 <= i < at ==> !occurs_at(whole@, part@, i),
        decreases w@.len() - at,
    {
        if chars_at(&w, &p, at) {
            return true;
        }
        at = at + 1;
    }
    chars_at(&w, &p, at)
}

/// The position of the last `mark` in `s`, or -1.
pub open spec fn last_position(s: Seq<char>, mark: char) -> int
    decreases s.len(),
{
    if s.len() == 0 {
        -1
    } else if s.last() == mark {
        s.len() - 1
    } else {
        last_position(s.drop_last(), mark)
    }
}

/// What follows the last `mark` in `s`; all of `s` where there is none.
pub open spec fn after_last(s: Seq<char>, mark: char) -> Seq<char> {
    s.skip(last_position(s, mark) + 1)
}

pub proof fn lemma_last_position(s: Seq<char>, mark: char)
    ensures
        -1 <= last_position(s, mark) < s.len(),
        last_position(s, mark) >= 0 ==> s[last_position(s, mark)] == mark,
        forall|j: int| last_position(s, mark) < j < s.len() ==> s[j] != mark,
    decreases s.len(),
{
    if s.len() > 0 && s.last() != mark {
        lemma_last_position(s.drop_last(), mark);
        assert forall|j: int| last_position(s, mark) < j < s.len() implies s[j] != mark by {
            if j < s.len() - 1 {
                assert(s.drop_last()[j] == s[j]);
            }
        }
    }
}

pub fn tail_after_last(text: &str, mark: char) -> (tail: String)
    ensures
        tail@ == after_last(text@, mark),
{
    let chars = chars_of(text);
    let mut end: usize = chars.len();
    assert(chars@.take(chars@.len() as int) == chars@);
    while end > 0 && chars[end - 1] != mark
        invariant
            end <= chars@.len(),
            last_position(chars@, mark) == last_position(chars@.take(end as int), mark),
        decreases end,
    {
        assert(chars@.take(end as int).drop_last() == chars@.take(end - 1));
        end = end - 1;
    }
    let tail = text_between(&chars, end, chars.len());
    assert(tail@ == chars@.skip(end as int));
    tail
}

/// The pieces of `s` between the `mark`s, the empty ones too.
pub open spec fn pieces(s: Seq<char>, mark: char) -> Seq<Seq<char>>
    decreases s.len(),
    when last_position(s, mark) < s.len()
    via pieces_decrease
{
    let at = last_position(s, mark);
    if at < 0 {
        seq![s]
    } else {
        pieces(s.take(at), mark).push(s.skip(at + 1))
    }
}

#[via_fn]
proof fn pieces_decrease(s: Seq<char>, mark: char) {
}

proof fn lemma_one_more(s: Seq<char>, c: char, mark: char)
    ensures
        c == mark ==> pieces(s.push(c), mark) == pieces(s, mark).push(Seq::empty()),
        c != mark ==> pieces(s.push(c), mark) == pieces(s, mark).drop_last().push(
            pieces(s, mark).last().push(c),
        ),
        pieces(s, mark).len() > 0,
        pieces(s, mark).last() == after_last(s, mark),
{
    let t = s.push(c);
    lemma_last_position(s, mark);
    lemma_last_position(t, mark);
    if last_position(s, mark) >= 0 {
        lemma_last_position(s.take(last_position(s, mark)), mark);
    }
    assert(t.drop_last() == s);
    if c == mark {
        assert(t.take(s.len() as int) == s);
        assert(t.skip(t.len() as int) == Seq::<char>::empty());
    } else {
        let at = last_position(s, mark);
        assert(last_position(t, mark) == at);
        if at >= 0 {
            assert(t.take(at) == s.take(at));
            assert(t.skip(at + 1) == s.skip(at + 1).push(c));
            assert(pieces(s, mark).drop_last() == pieces(s.take(at), mark));
        } else {
            assert(pieces(s, mark).drop_last() == Seq::<Seq<char>>::empty());
            assert(seq![t] =~= Seq::<Seq<char>>::empty().push(t));
            assert(s.skip(0) == s);
        }
    }
    if last_position(s, mark) < 0 {
        assert(s.skip(0) == s);
    }
}

/// `str::split` at a character.
pub fn split(text: &str, mark: char) -> (parts: Vec<String>)
    ensures
        texts(parts@) == pieces(text@, mark),
{
    let chars = chars_of(text);
    let mut parts: Vec<String> = Vec::new();
    let mut piece = String::new();
    let mut i: usize = 0;
    proof {
        assert(chars@.take(0) == Seq::<char>::empty());
        assert(texts(parts@).push(piece@) =~= seq![Seq::<char>::empty()]);
    }
    while i < chars.len()
        invariant
            i <= chars@.len(),
            texts(parts@).push(piece@) == pieces(chars@.take(i as int), mark),
        decreases chars@.len() - i,
    {
        let c = chars[i];
        let ghost before = chars@.take(i as int);
        let ghost had = texts(parts@);
        proof {
            lemma_one_more(before, c, mark);
            assert(chars@.take(i + 1) == before.push(c));
            assert(had.push(piece@).drop_last() == had);
        }
        if c == mark {
            let ghost old_piece = piece@;
            parts.push(piece);
            piece = String::new();
            assert(texts(parts@) =~= had.push(old_piece));
        } else {
            piece.push(c);
        }
        i = i + 1;
    }
    assert(chars@.take(i as int) == chars@);
    let ghost had = texts(parts@);
    parts.push(piece);
    assert(texts(parts@) =~= had.push(parts@.last()@));
    parts
}

// ---------------------------------------------------------------------------
// Trimming
// ---------------------------------------------------------------------------

/// Unicode's `White_Space` property, by which `str::trim` goes.
pub open spec fn is_space(c: char) -> bool {
    let n = c as u32;
    ||| 0x9 <= n <= 0xd
    ||| n == 0x20
    ||| n == 0x85
    ||| n == 0xa0
    ||| n == 0x1680
    ||| 0x2000 <= n <= 0x200a
    ||| n == 0x2028
    ||| n == 0x2029
    ||| n == 0x202f
    ||| n == 0x205f
    ||| n == 0x3000
}

fn space(c: char) -> (b: bool)
    ensures
        b == is_space(c),
{
    let n: u32 = c as u32;
    (0x9 <= n && n <= 0xd) || n == 0x20 || n == 0x85 || n == 0xa0 || n == 0x1680 || (0x2000 <= n
        && n <= 0x200a) || n == 0x2028 || n == 0x2029 || n == 0x202f || n == 0x205f || n == 0x3000
}

pub open spec fn trimmed_start(s: Seq<char>) -> Seq<char>
    decreases s.len(),
{
    if s.len() > 0 && is_space(s[0]) {
        trimmed_start(s.drop_first())
    } else {
        s
    }
}

pub open spec fn trimmed_end(s: Seq<char>) -> Seq<char>
    decreases s.len(),
{
    if s.len() > 0 && is_space(s.last()) {
        trimmed_end(s.drop_last())
    } else {
        s
    }
}

/// `s` without the white space at either end.
pub open spec fn trimmed(s: Seq<char>) -> Seq<char> {
    trimmed_end(trimmed_start(s))
}

pub fn trim(text: &str) -> (inner: String)
    ensures
        inner@ == trimmed(text@),
{
    let chars = chars_of(text);
    let mut from: usize = 0;
    assert(chars@.skip(0) == chars@);
    while from < chars.len() && space(chars[from])
        invariant
            from <= chars@.len(),
            trimmed_start(chars@) == trimmed_start(chars@.skip(from as int)),
        decreases chars@.len() - from,
    {
        assert(chars@.skip(from as int).drop_first() == chars@.skip(from + 1));
        from = from + 1;
    }
    let mut to: usize = chars.len();
    assert(chars@.skip(from as int) == chars@.subrange(from as int, to as int));
    while to > from && space(chars[to - 1])
        invariant
            from <= to <= chars@.len(),
            trimmed_end(chars@.skip(from as int)) == trimmed_end(
                chars@.subrange(from as int, to as int),
            ),
        decreases to,
    {
        assert(chars@.subrange(from as int, to as int).drop_last() == chars@.subrange(
            from as int,
            to - 1,
        ));
        to = to - 1;
    }
    text_between(&chars, from, to)
}

// ---------------------------------------------------------------------------
// Letter case
// ---------------------------------------------------------------------------

/// The capital of an ASCII letter; any other character as it is.
pub open spec fn upper_char(c: char) -> char {
    if 'a' <= c <= 'z' {
        (c as int - 32) as char
    } else {
        c
    }
}

/// `s` with its ASCII letters in capitals.
pub open spec fn upper(s: Seq<char>) -> Seq<char> {
    Seq::new(s.len(), |i: int| upper_char(s[i]))
}

pub fn to_upper(text: &str) -> (out: String)
    ensures
        out@ == upper(text@),
{
    let chars = chars_of(text);
    let mut out = String::new();
    let mut i: usize = 0;
    while i < chars.len()
        invariant
            i <= chars@.len(),
            out@ == upper(chars@).take(i as int),
        decreases chars@.len() - i,
    {
        let c = chars[i];
        if 'a' <= c && c <= 'z' {
            out.push((c as u8 - 32) as char);
        } else {
            out.push(c);
        }
        i = i + 1;
        assert(upper(chars@).take(i as int) == upper(chars@).take(i - 1).push(
            upper(chars@)[i - 1],
        ));
    }
    assert(upper(chars@).take(i as int) == upper(chars@));
    out
}

// ---------------------------------------------------------------------------
// Quotes
// ---------------------------------------------------------------------------

/// `s` with every `mark` written twice.
pub open spec fn doubled(s: Seq<char>, mark: char) -> Seq<char>
    decreases s.len(),
{
    if s.len() == 0 {
        s
    } else if s[0] == mark {
        seq![mark, mark] + doubled(s.drop_first(), mark)
    } else {
        seq![s[0]] + doubled(s.drop_first(), mark)
    }
}

pub fn double(text: &str, mark: char) -> (out: String)
    ensures
        out@ == doubled(text@, mark),
{
    let chars = chars_of(text);
    let mut out = String::new();
    let mut i: usize = 0;
    proof {
        assert(chars@.skip(0) == chars@);
        assert(out@ + doubled(chars@, mark) =~= doubled(chars@, mark));
    }
    while i < chars.len()
        invariant
            i <= chars@.len(),
            out@ + doubled(chars@.skip(i as int), mark) == doubled(chars@, mark),
        decreases chars@.len() - i,
    {
        let ghost before = out@;
        let ghost rest = doubled(chars@.skip(i + 1), mark);
        assert(chars@.skip(i as int).drop_first() == chars@.skip(i + 1));
        if chars[i] == mark {
            out.push(mark);
            assert(before + (seq![mark, mark] + rest) =~= out@.push(mark) + rest);
        } else {
            assert(before + (seq![chars@[i as int]] + rest) =~= out@.push(chars@[i as int]) + rest);
        }
        out.push(chars[i]);
        i = i + 1;
    }
    assert(chars@.skip(i as int) == Seq::<char>::empty());
    assert(out@ + Seq::<char>::empty() =~= out@);
    out
}

/// What stands between two `mark`s, as whoever reads a quoted text has it: two
/// of them in a row are one, a single one ends the text too early.
pub open spec fn unquoted(s: Seq<char>, mark: char) -> Option<Seq<char>>
    decreases s.len(),
{
    if s.len() == 0 {
        Some(s)
    } else if s[0] != mark {
        match unquoted(s.drop_first(), mark) {
            Some(rest) => Some(seq![s[0]] + rest),
            None => None,
        }
    } else if s.len() > 1 && s[1] == mark {
        match unquoted(s.skip(2), mark) {
            Some(rest) => Some(seq![mark] + rest),
            None => None,
        }
    } else {
        None
    }
}

/// A text with its quotes doubled is read as that text, whatever it holds.
pub proof fn law_quotes_read_back(s: Seq<char>, mark: char)
    ensures
        unquoted(doubled(s, mark), mark) == Some(s),
    decreases s.len(),
{
    if s.len() > 0 {
        let rest = doubled(s.drop_first(), mark);
        law_quotes_read_back(s.drop_first(), mark);
        assert(seq![s[0]] + s.drop_first() =~= s);
        if s[0] == mark {
            assert((seq![mark, mark] + rest).skip(2) =~= rest);
        } else {
            assert((seq![s[0]] + rest).drop_first() =~= rest);
        }
    } else {
        assert(s == Seq::<char>::empty());
    }
}

/// A part of one of the pieces of a text is a part of the text.
pub proof fn lemma_part_between(a: Seq<char>, part: Seq<char>, b: Seq<char>)
    ensures
        has_part(a + part + b, part),
{
    assert(occurs_at(a + part + b, part, a.len() as int)) by {
        assert((a + part + b).subrange(a.len() as int, (a.len() + part.len()) as int) =~= part);
    }
}

pub proof fn lemma_suffix(a: Seq<char>, b: Seq<char>)
    ensures
        has_suffix(a + b, b),
{
    assert((a + b).subrange(a.len() as int, (a + b).len() as int) =~= b);
}

pub proof fn lemma_part_inside(a: Seq<char>, s: Seq<char>, b: Seq<char>, part: Seq<char>)
    requires
        has_part(s, part),
    ensures
        has_part(a + s + b, part),
{
    let at = choose|at: int| occurs_at(s, part, at);
    assert((a + s + b).subrange(a.len() + at, a.len() + at + part.len()) =~= s.subrange(
        at,
        at + part.len(),
    ));
    assert(occurs_at(a + s + b, part, a.len() + at));
}

pub proof fn lemma_part_grows(s: Seq<char>, part: Seq<char>, b: Seq<char>)
    requires
        has_part(s, part),
    ensures
        has_part(s + b, part),
{
    let at = choose|at: int| occurs_at(s, part, at);
    assert(occurs_at(s + b, part, at)) by {
        assert((s + b).subrange(at, at + part.len()) =~= s.subrange(at, at + part.len()));
    }
}

// ---------------------------------------------------------------------------
// Integers in decimal notation
// ---------------------------------------------------------------------------

pub open spec fn is_digit(c: char) -> bool {
    '0' <= c <= '9'
}

pub open spec fn digit_value(c: char) -> int {
    c as int - '0' as int
}

pub open spec fn all_digits(s: Seq<char>) -> bool {
    forall|i: int| 0 <= i < s.len() ==> is_digit(#[trigger] s[i])
}

/// The number that a row of decimal digits denotes.
pub open spec fn digits_value(s: Seq<char>) -> int
    decreases s.len(),
{
    if s.len() == 0 {
        0
    } else {
        digits_value(s.drop_last()) * 10 + digit_value(s.last())
    }
}

/// The integer that `s` denotes: digits behind an optional sign, `-` only
/// where `signed`.
pub open spec fn parsed_int(s: Seq<char>, signed: bool) -> Option<int> {
    if s.len() > 0 && (s[0] == '+' || (signed && s[0] == '-')) {
        let digits = s.drop_first();
        if digits.len() > 0 && all_digits(digits) {
            Some(
                if s[0] == '-' {
                    -digits_value(digits)
                } else {
                    digits_value(digits)
                },
            )
        } else {
            None
        }
    } else if s.len() > 0 && all_digits(s) {
        Some(digits_value(s))
    } else {
        None
    }
}

proof fn lemma_digits_value_grows(s: Seq<char>, n: int)
    requires
        all_digits(s),
        0 <= n <= s.len(),
    ensures
        0 <= digits_value(s.take(n)) <= digits_value(s),
    decreases s.len(),
{
    if n == s.len() {
        assert(s.take(n) == s);
        if n > 0 {
            lemma_digits_value_grows(s.drop_last(), n - 1);
            assert(is_digit(s.last()));
        }
    } else {
        lemma_digits_value_grows(s.drop_last(), n);
        assert(s.drop_last().take(n) == s.take(n));
        assert(is_digit(s.last()));
    }
}

/// The value of the digits from `from` on, where they are digits, at least
/// one, and the value is at most 2^32.
fn digits_from(chars: &Vec<char>, from: usize) -> (value: Option<u64>)
    requires
        from <= chars@.len(),
    ensures
        ({
            let digits = chars@.skip(from as int);
            match value {
                Some(v) => digits.len() > 0 && all_digits(digits) && v == digits_value(digits)
                    && v <= 0x1_0000_0000,
                None => digits.len() == 0 || !all_digits(digits) || digits_value(digits)
                    > 0x1_0000_0000,
            }
        }),
{
    let ghost digits = chars@.skip(from as int);
    if from == chars.len() {
        return None;
    }
    let mut value: u64 = 0;
    let mut i: usize = from;
    while i < chars.len()
        invariant
            from <= i <= chars@.len(),
            from < chars@.len(),
            digits == chars@.skip(from as int),
            all_digits(digits.take(i - from)),
            value == digits_value(digits.take(i - from)),
            value <= 0x1_0000_0000,
        decreases chars@.len() - i,
    {
        let c = chars[i];
        assert(c == digits[i - from]);
        if c < '0' || c > '9' {
            return None;
        }
        let ghost before = digits.take(i - from);
        let ghost after = digits.take(i + 1 - from);
        assert(after.drop_last() == before);
        assert(after == before.push(c));
        value = value * 10 + (c as u64 - '0' as u64);
        assert(value == digits_value(after));
        if value > 0x1_0000_0000 {
            proof {
                if all_digits(digits) {
                    lemma_digits_value_grows(digits, i + 1 - from);
                }
            }
            return None;
        }
        i = i + 1;
    }
    assert(digits.take(i - from) == digits);
    Some(value)
}

/// `str::parse::<u32>`: the value where `text` denotes one that fits.
pub fn parse_u32(text: &str) -> (value: Option<u32>)
    ensures
        match value {
            Some(v) => parsed_int(text@, false) == Some(v as int),
            None => match parsed_int(text@, false) {
                Some(n) => n > u32::MAX,
                None => true,
            },
        },
{
    let chars = chars_of(text);
    let from: usize = if chars.len() > 0 && chars[0] == '+' {
        1
    } else {
        0
    };
    proof {
        assert(chars@.skip(0) == chars@);
        if chars@.len() > 0 {
            assert(chars@.skip(1) == chars@.drop_first());
        }
    }
    match digits_from(&chars, from) {
        Some(v) => if v <= 0xffff_ffff {
            Some(v as u32)
        } else {
            None
        },
        None => None,
    }
}

/// `str::parse::<i32>`: the value where `text` denotes one that fits.
pub fn parse_i32(text: &str) -> (value: Option<i32>)
    ensures
        match value {
            Some(v) => parsed_int(text@, true) == Some(v as int),
            None => match parsed_int(text@, true) {
                Some(n) => n > i32::MAX || n < i32::MIN,
                None => true,
            },
        },
{
    let chars = chars_of(text);
    let negative: bool = chars.len() > 0 && chars[0] == '-';
    let from: usize = if chars.len() > 0 && (chars[0] == '+' || chars[0] == '-') {
        1
    } else {
        0
    };
    proof {
        assert(chars@.skip(0) == chars@);
        if chars@.len() > 0 {
            assert(chars@.skip(1) == chars@.drop_first());
        }
    }
    match digits_from(&chars, from) {
        Some(v) => if negative {
            if v <= 0x8000_0000 {
                Some((0 - v as i64) as i32)
            } else {
                None
            }
        } else if v <= 0x7fff_ffff {
            Some(v as i32)
        } else {
            None
        },
        None => None,
    }
}

/// `str::parse::<u64>`: the value where `text` denotes one that fits.
pub fn parse_u64(text: &str) -> (value: Option<u64>)
    ensures
        match value {
            Some(v) => parsed_int(text@, false) == Some(v as int),
            None => match parsed_int(text@, false) {
                Some(n) => n > u64::MAX,
                None => true,
            },
        },
{
    let chars = chars_of(text);
    let from: usize = if chars.len() > 0 && chars[0] == '+' {
        1
    } else {
        0
    };
    let ghost digits = chars@.skip(from as int);
    proof {
        assert(chars@.skip(0) == chars@);
        if chars@.len() > 0 {
            assert(chars@.skip(1) == chars@.drop_first());
        }
    }
    if from == chars.len() {
        return None;
    }
    let mut value: u64 = 0;
    let mut i: usize = from;
    while i < chars.len()
        invariant
            from <= i <= chars@.len(),
            chars@ == text@,
            from == (if chars@.len() > 0 && chars@[0] == '+' {
                1int
            } else {
                0int
            }),
            from < chars@.len(),
            digits == chars@.skip(from as int),
            from == 0 ==> digits == chars@,
            from == 1 ==> digits == chars@.drop_first(),
            all_digits(digits.take(i - from)),
            value == digits_value(digits.take(i - from)),
        decreases chars@.len() - i,
    {
        let c = chars[i];
        assert(c == digits[i - from]);
        if c < '0' || c > '9' {
            return None;
        }
        let d: u64 = c as u64 - '0' as u64;
        let ghost before = digits.take(i - from);
        let ghost after = digits.take(i + 1 - from);
        proof {
            assert(after.drop_last() == before);
            assert(after == before.push(c));
            assert(digits_value(after) == digits_value(before) * 10 + digit_value(c));
            if all_digits(digits) {
                lemma_digits_value_grows(digits, i + 1 - from);
            }
        }
        if value > (0xffff_ffff_ffff_ffff - d) / 10 {
            return None;
        }
        value = value * 10 + d;
        i = i + 1;
    }
    assert(digits.take(i - from) == digits);
    Some(value)
}

pub open spec fn digit_char(d: int) -> char {
    ('0' as int + d) as char
}

/// `n` in decimal notation, without leading zeros.
pub open spec fn decimal_text(n: nat) -> Seq<char>
    decreases n,
{
    if n < 10 {
        seq![digit_char(n as int)]
    } else {
        decimal_text(n / 10).push(digit_char((n % 10) as int))
    }
}

fn push_digits(out: &mut String, n: u128)
    ensures
        final(out)@ == old(out)@ + decimal_text(n as nat),
    decreases n,
{
    if n >= 10 {
        push_digits(out, n / 10);
    }
    let d: u8 = (n % 10) as u8;
    out.push((48u8 + d) as char);
}

/// Appends `n` in decimal notation.
pub fn push_decimal(out: &mut String, n: u64)
    ensures
        final(out)@ == old(out)@ + decimal_text(n as nat),
{
    push_digits(out, n as u128);
}

/// `n` in decimal notation, with a sign where it is negative.
pub open spec fn int_text(n: int) -> Seq<char> {
    if n < 0 {
        "-"@ + decimal_text((-n) as nat)
    } else {
        decimal_text(n as nat)
    }
}

/// Appends `n` in decimal notation, with a sign where it is negative.
pub fn push_int(out: &mut String, n: i128)
    ensures
        final(out)@ == old(out)@ + int_text(n as int),
{
    if n < 0 {
        out.append("-");
        let size: u128 = (-(n + 1)) as u128 + 1;
        push_digits(out, size);
        assert(out@ =~= old(out)@ + int_text(n as int));
    } else {
        push_digits(out, n as u128);
    }
}

/// How `Debug` shows a text: in quotes, with escapes.
pub uninterp spec fn quoted(text: Seq<char>) -> Seq<char>;

/// `format!` of a text with `{:?}`: a function of the text.
#[verifier::external_body]
pub(crate) fn quote(text: &str) -> (q: String)
    ensures
        q@ == quoted(text@),
{
    format!("{text:?}")
}

/// How `Debug` shows a list of texts: in brackets, each in quotes.
pub open spec fn quoted_list(list: Seq<Seq<char>>) -> Seq<char> {
    "["@ + joined(Seq::new(list.len(), |i: int| quoted(list[i])), ", "@) + "]"@
}

pub(crate) fn quote_list(list: &Vec<String>) -> (q: String)
    ensures
        q@ == quoted_list(texts(list@)),
{
    let ghost want = Seq::new(list@.len(), |i: int| quoted(list@[i]@));
    let mut shown: Vec<String> = Vec::new();
    let mut i: usize = 0;
    while i < list.len()
        invariant
            i <= list@.len(),
            want == Seq::new(list@.len(), |i: int| quoted(list@[i]@)),
            shown@.len() == i,
            forall|j: int| 0 <= j < i ==> (#[trigger] shown@[j])@ == want[j],
        decreases list@.len() - i,
    {
        shown.push(quote(list[i].as_str()));
        i = i + 1;
    }
    assert(texts(shown@) =~= want);
    assert(want =~= Seq::new(texts(list@).len(), |i: int| quoted(texts(list@)[i])));
    let mut q = "[".to_string();
    q.append(join(&shown, ", ").as_str());
    q.append("]");
    q
}

/// Reading back what `decimal_text` wrote gives the number.
pub proof fn law_decimal_round_trip(n: nat)
    ensures
        parsed_int(decimal_text(n), false) == Some(n as int),
{
    lemma_decimal_digits(n);
    assert(is_digit(decimal_text(n)[0]));
}

pub proof fn lemma_decimal_digits(n: nat)
    ensures
        decimal_text(n).len() > 0,
        all_digits(decimal_text(n)),
        digits_value(decimal_text(n)) == n,
    decreases n,
{
    if n >= 10 {
        lemma_decimal_digits(n / 10);
        let head = decimal_text(n / 10);
        assert(decimal_text(n).drop_last() == head);
        assert forall|i: int| 0 <= i < decimal_text(n).len() implies is_digit(
            #[trigger] decimal_text(n)[i],
        ) by {
            if i < head.len() {
                assert(decimal_text(n)[i] == head[i]);
            }
        }
    } else {
        assert(decimal_text(n).drop_last() == Seq::<char>::empty());
        reveal_with_fuel(digits_value, 2);
    }
}

// ---------------------------------------------------------------------------
// Lists of texts
// ---------------------------------------------------------------------------

/// The views of a list of texts.
pub open spec fn texts(list: Seq<String>) -> Seq<Seq<char>> {
    Seq::new(list.len(), |i: int| list[i]@)
}

/// The texts of `list` one after another with `mark` between them.
pub open spec fn joined(list: Seq<Seq<char>>, mark: Seq<char>) -> Seq<char>
    decreases list.len(),
{
    if list.len() == 0 {
        Seq::empty()
    } else if list.len() == 1 {
        list[0]
    } else {
        joined(list.drop_last(), mark) + mark + list.last()
    }
}

pub fn join(list: &Vec<String>, mark: &str) -> (out: String)
    ensures
        out@ == joined(texts(list@), mark@),
{
    let mut out = String::new();
    let mut i: usize = 0;
    assert(texts(list@).take(0) == Seq::<Seq<char>>::empty());
    while i < list.len()
        invariant
            i <= list@.len(),
            out@ == joined(texts(list@).take(i as int), mark@),
        decreases list@.len() - i,
    {
        assert(texts(list@).take(i + 1).drop_last() == texts(list@).take(i as int));
        if i > 0 {
            out.append(mark);
        }
        out.append(list[i].as_str());
        i = i + 1;
        assert(out@ == joined(texts(list@).take(i as int), mark@));
    }
    assert(texts(list@).take(i as int) == texts(list@));
    out
}

/// Whether `list` holds `text`.
pub fn contains_text(list: &Vec<String>, text: &str) -> (found: bool)
    ensures
        found == texts(list@).contains(text@),
{
    let mut i: usize = 0;
    while i < list.len()
        invariant
            i <= list@.len(),
            forall|j: int| 0 <= j < i ==> texts(list@)[j] != text@,
        decreases list@.len() - i,
    {
        if same_text(list[i].as_str(), text) {
            assert(texts(list@)[i as int] == text@);
            return true;
        }
        i = i + 1;
    }
    false
}

/// Each text of `list` stands before those that are larger.
pub open spec fn in_order(list: Seq<Seq<char>>) -> bool {
    forall|i: int, j: int| 0 <= i < j < list.len() ==> !lex_less(list[j], list[i])
}

/// The texts of `list` in order.
pub fn sort_texts(list: &Vec<String>) -> (sorted: Vec<String>)
    ensures
        in_order(texts(sorted@)),
        texts(sorted@).to_multiset() == texts(list@).to_multiset(),
{
    let mut sorted: Vec<String> = Vec::new();
    let mut i: usize = 0;
    proof {
        assert(texts(list@).take(0) == Seq::<Seq<char>>::empty());
        assert(texts(sorted@) == Seq::<Seq<char>>::empty());
    }
    while i < list.len()
        invariant
            i <= list@.len(),
            in_order(texts(sorted@)),
            texts(sorted@).to_multiset() == texts(list@).take(i as int).to_multiset(),
        decreases list@.len() - i,
    {
        let ghost before = texts(sorted@);
        let ghost x = list@[i as int]@;
        let mut k: usize = sorted.len();
        while k > 0 && text_less(list[i].as_str(), sorted[k - 1].as_str())
            invariant
                k <= sorted@.len(),
                i < list@.len(),
                before == texts(sorted@),
                x == list@[i as int]@,
                forall|j: int| k <= j < before.len() ==> lex_less(x, #[trigger] before[j]),
            decreases k,
        {
            assert(before[k - 1] == sorted@[k - 1]@);
            k = k - 1;
        }
        sorted.insert(k, list[i].clone());
        proof {
            let after = texts(sorted@);
            assert(after =~= before.insert(k as int, x));
            vstd::seq_lib::to_multiset_insert(before, k as int, x);
            vstd::seq_lib::to_multiset_build(texts(list@).take(i as int), x);
            assert(texts(list@).take(i + 1) == texts(list@).take(i as int).push(x));
            if k > 0 {
                assert(before[k - 1] == sorted@[k - 1]@);
            }
            assert forall|a: int, b: int| 0 <= a < b < after.len() implies !lex_less(
                after[b],
                after[a],
            ) by {
                if a < k && b == k {
                    // x is not less than before[k - 1], which is not less than before[a]
                    if a < k - 1 && lex_less(x, before[a]) {
                        lemma_lex_total(before[k - 1], before[a]);
                        if lex_less(before[a], before[k - 1]) {
                            lemma_lex_transitive(x, before[a], before[k - 1]);
                        }
                    }
                } else if a == k && b > k {
                    assert(lex_less(x, before[b - 1]));
                    if lex_less(before[b - 1], x) {
                        lemma_lex_transitive(x, before[b - 1], x);
                        lemma_lex_irreflexive(x);
                    }
                } else if a < k && b < k {
                    assert(!lex_less(before[b], before[a]));
                } else if a < k && b > k {
                    assert(!lex_less(before[b - 1], before[a]));
                } else {
                    assert(!lex_less(before[b - 1], before[a - 1]));
                }
            }
        }
        i = i + 1;
    }
    assert(texts(list@).take(i as int) == texts(list@));
    sorted
}

/// A copy of a list of texts.
pub fn copy_texts(list: &Vec<String>) -> (copy: Vec<String>)
    ensures
        texts(copy@) == texts(list@),
{
    let mut copy: Vec<String> = Vec::new();
    let mut i: usize = 0;
    while i < list.len()
        invariant
            i <= list@.len(),
            copy@.len() == i,
            forall|j: int| 0 <= j < i ==> copy@[j]@ == list@[j]@,
        decreases list@.len() - i,
    {
        copy.push(list[i].clone());
        i = i + 1;
    }
    assert(texts(copy@) =~= texts(list@));
    copy
}

// ---------------------------------------------------------------------------
// Optional texts
// ---------------------------------------------------------------------------

/// The view of a text that may be missing.
pub open spec fn optional_view(s: Option<String>) -> Option<Seq<char>> {
    match s {
        Some(s) => Some(s@),
        None => None,
    }
}

pub fn copy_optional(s: &Option<String>) -> (c: Option<String>)
    ensures
        optional_view(c) == optional_view(*s),
{
    match s {
        Some(s) => Some(s.clone()),
        None => None,
    }
}

// ---------------------------------------------------------------------------
// Bytes of a text
// ---------------------------------------------------------------------------

/// How many bytes a character takes up in UTF-8.
pub open spec fn char_bytes(c: char) -> int {
    if (c as int) < 0x80 {
        1
    } else if (c as int) < 0x800 {
        2
    } else if (c as int) < 0x1_0000 {
        3
    } else {
        4
    }
}

/// How many bytes a text takes up in UTF-8.
pub open spec fn byte_len(s: Seq<char>) -> int
    decreases s.len(),
{
    if s.len() == 0 {
        0
    } else {
        char_bytes(s[0]) + byte_len(s.drop_first())
    }
}

/// How many characters the first `n` bytes of a text hold; nothing where they
/// end inside a character or behind the text.
pub open spec fn cut_at(s: Seq<char>, n: int) -> Option<int>
    decreases s.len(),
{
    if n == 0 {
        Some(0)
    } else if n < 0 || s.len() == 0 {
        None
    } else {
        match cut_at(s.drop_first(), n - char_bytes(s[0])) {
            Some(k) => Some(k + 1),
            None => None,
        }
    }
}

pub proof fn lemma_cut_inside(s: Seq<char>, n: int)
    ensures
        byte_len(s) >= 0,
        match cut_at(s, n) {
            Some(k) => 0 <= k <= s.len() && n <= byte_len(s),
            None => true,
        },
    decreases s.len(),
{
    if s.len() > 0 {
        lemma_cut_inside(s.drop_first(), n - char_bytes(s[0]));
    }
}

/// Digits take up a byte each, so a text of them can be cut anywhere.
pub proof fn lemma_cut_digits(s: Seq<char>, n: int)
    requires
        all_digits(s),
    ensures
        byte_len(s) == s.len(),
        0 <= n <= s.len() ==> cut_at(s, n) == Some(n),
    decreases s.len(),
{
    if s.len() > 0 {
        assert(is_digit(s[0]));
        let rest = s.drop_first();
        assert forall|i: int| 0 <= i < rest.len() implies is_digit(#[trigger] rest[i]) by {
            assert(rest[i] == s[i + 1]);
        }
        lemma_cut_digits(rest, n - 1);
    }
}

/// Where the first `n` bytes of a text end.
#[derive(Debug, Clone, Copy, PartialEq, Eq, Structural)]
pub enum Cut {
    /// Behind so many characters.
    At(usize),
    /// Inside a character.
    Inside,
    /// Behind the text.
    Beyond,
}

/// Finds the end of the first `n` bytes.
pub fn find_cut(chars: &Vec<char>, n: usize) -> (r: Cut)
    ensures
        match r {
            Cut::At(k) => cut_at(chars@, n as int) == Some(k as int),
            Cut::Inside => cut_at(chars@, n as int) is None && n < byte_len(chars@),
            Cut::Beyond => byte_len(chars@) < n,
        },
{
    let mut i: usize = 0;
    let mut left: usize = n;
    assert(chars@.skip(0) == chars@);
    while left > 0
        invariant
            i <= chars@.len(),
            left <= n,
            byte_len(chars@) == n - left + byte_len(chars@.skip(i as int)),
            cut_at(chars@, n as int) == match cut_at(chars@.skip(i as int), left as int) {
                Some(k) => Some(k + i),
                None => None,
            },
        decreases left,
    {
        let ghost rest = chars@.skip(i as int);
        if i == chars.len() {
            return Cut::Beyond;
        }
        assert(rest.drop_first() == chars@.skip(i + 1));
        let c: char = chars[i];
        let width: usize = if '\u{7f}' >= c {
            1
        } else if '\u{7ff}' >= c {
            2
        } else if '\u{ffff}' >= c {
            3
        } else {
            4
        };
        assert(width == char_bytes(rest[0]));
        if left < width {
            proof {
                lemma_cut_inside(rest.drop_first(), 0);
                assert(cut_at(rest.drop_first(), left - width) is None);
            }
            return Cut::Inside;
        }
        left = left - width;
        i = i + 1;
    }
    Cut::At(i)
}

// ---------------------------------------------------------------------------
// Laws
// ---------------------------------------------------------------------------

proof fn lemma_trimmed_start(a: Seq<char>, s: Seq<char>)
    requires
        forall|i: int| #![trigger a[i]] 0 <= i < a.len() ==> is_space(a[i]),
        s.len() == 0 || !is_space(s[0]),
    ensures
        trimmed_start(a + s) == s,
    decreases a.len(),
{
    if a.len() == 0 {
        assert(a + s =~= s);
    } else {
        assert(is_space(a[0]));
        assert((a + s)[0] == a[0]);
        assert((a + s).drop_first() =~= a.drop_first() + s);
        let rest = a.drop_first();
        assert(forall|i: int| #![trigger rest[i]] 0 <= i < rest.len() ==> rest[i] == a[i + 1]);
        lemma_trimmed_start(rest, s);
    }
}

proof fn lemma_trimmed_end(s: Seq<char>, b: Seq<char>)
    requires
        forall|i: int| #![trigger b[i]] 0 <= i < b.len() ==> is_space(b[i]),
        s.len() == 0 || !is_space(s.last()),
    ensures
        trimmed_end(s + b) == s,
    decreases b.len(),
{
    if b.len() == 0 {
        assert(s + b =~= s);
    } else {
        assert(is_space(b[b.len() - 1]));
        assert((s + b).last() == b.last());
        assert((s + b).drop_last() =~= s + b.drop_last());
        let rest = b.drop_last();
        assert(forall|i: int| #![trigger rest[i]] 0 <= i < rest.len() ==> rest[i] == b[i]);
        lemma_trimmed_end(s, rest);
    }
}

/// Trimming takes away the white space at either end, all of it, and nothing
/// else.
pub proof fn law_trimming_leaves_the_text(a: Seq<char>, s: Seq<char>, b: Seq<char>)
    requires
        forall|i: int| #![trigger a[i]] 0 <= i < a.len() ==> is_space(a[i]),
        forall|i: int| #![trigger b[i]] 0 <= i < b.len() ==> is_space(b[i]),
        s.len() > 0 && !is_space(s[0]) && !is_space(s.last()),
    ensures
        trimmed(a + s + b) == s,
{
    assert(a + s + b =~= a + (s + b));
    assert((s + b)[0] == s[0]);
    lemma_trimmed_start(a, s + b);
    lemma_trimmed_end(s, b);
}

/// Nothing is left of white space alone.
pub proof fn law_blank_texts_are_empty(a: Seq<char>)
    requires
        forall|i: int| #![trigger a[i]] 0 <= i < a.len() ==> is_space(a[i]),
    ensures
        trimmed(a).len() == 0,
{
    assert(a + Seq::<char>::empty() =~= a);
    lemma_trimmed_start(a, Seq::empty());
}

/// Letters and digits are no white space; blanks, tabs, the ends of lines and
/// the wide blank are.
pub proof fn law_white_space(c: char)
    ensures
        c == ' ' || c == '\t' || c == '\n' || c == '\r' || c == '\u{3000}' ==> is_space(c),
        '!' <= c <= '~' || '\u{3001}' <= c ==> !is_space(c),
{
}

proof fn lemma_int_text(n: int)
    ensures
        int_text(n).len() > 0,
        !is_space(int_text(n)[0]),
        !is_space(int_text(n).last()),
        parsed_int(int_text(n), true) == Some(n),
{
    reveal_strlit("-");
    if n < 0 {
        let digits = decimal_text((-n) as nat);
        lemma_decimal_digits((-n) as nat);
        assert(is_digit(digits[digits.len() - 1]));
        let s = "-"@ + digits;
        assert(int_text(n) == s);
        assert(s.drop_first() =~= digits);
        assert(s[0] == '-');
        assert(s.last() == digits[digits.len() - 1]);
    } else {
        let digits = decimal_text(n as nat);
        lemma_decimal_digits(n as nat);
        assert(is_digit(digits[0]));
        assert(is_digit(digits[digits.len() - 1]));
    }
}

/// An integer is read back from its decimal notation, with its sign.
pub proof fn law_integers_read_back(n: int)
    ensures
        parsed_int(int_text(n), true) == Some(n),
        int_text(n).len() > 0,
        trimmed(int_text(n)) == int_text(n),
{
    lemma_int_text(n);
    let s = int_text(n);
    let none = Seq::<char>::empty();
    assert(none + s + none =~= s);
    law_trimming_leaves_the_text(none, s, none);
}

/// Only digits behind an optional sign are an integer: a letter, a point or a
/// blank anywhere makes it none.
pub proof fn law_only_digits_are_an_integer(s: Seq<char>, signed: bool, i: int)
    requires
        0 <= i < s.len(),
        !is_digit(s[i]),
        i > 0 || (s[i] != '+' && s[i] != '-'),
    ensures
        parsed_int(s, signed) is None,
{
    if s.len() > 0 && (s[0] == '+' || (signed && s[0] == '-')) {
        assert(s.drop_first()[i - 1] == s[i]);
    }
}

/// What follows the last mark: a text that holds no mark is left whole, and
/// what stands before the last mark does not matter.
pub proof fn law_the_last_mark_counts(before: Seq<char>, mark: char, rest: Seq<char>)
    requires
        !rest.contains(mark),
    ensures
        after_last(rest, mark) == rest,
        after_last(before + seq![mark] + rest, mark) == rest,
        last_position(before + seq![mark] + rest, mark) == before.len(),
        last_position(rest, mark) == -1,
{
    let s = before + seq![mark] + rest;
    lemma_last_position(rest, mark);
    lemma_last_position(s, mark);
    assert(s[before.len() as int] == mark);
    let at = last_position(s, mark);
    if at > before.len() {
        assert(s[at] == rest[at - before.len() - 1]);
    }
    if last_position(rest, mark) >= 0 {
        assert(rest.contains(mark));
    }
    assert(rest.skip(0) =~= rest);
    assert(s.skip(before.len() as int + 1) =~= rest);
}

/// A part stands at the front where the whole is that part with something
/// behind it.
pub proof fn law_prefixes(whole: Seq<char>, part: Seq<char>, rest: Seq<char>)
    ensures
        has_prefix(part + rest, part),
        has_prefix(whole, part) ==> whole == part + whole.skip(part.len() as int),
{
    assert((part + rest).subrange(0, part.len() as int) =~= part);
    if has_prefix(whole, part) {
        let front = whole.subrange(0, part.len() as int);
        assert(whole =~= front + whole.skip(part.len() as int));
    }
}

/// A part stands at the end where the whole is that part with something before
/// it.
pub proof fn law_suffixes(whole: Seq<char>, part: Seq<char>, rest: Seq<char>)
    ensures
        has_suffix(rest + part, part),
        has_suffix(whole, part) ==> whole == whole.take(whole.len() - part.len()) + part,
{
    lemma_suffix(rest, part);
    if has_suffix(whole, part) {
        let end = whole.subrange(whole.len() - part.len(), whole.len() as int);
        assert(whole =~= whole.take(whole.len() - part.len()) + end);
    }
}

/// Texts without a mark, joined by it, are the pieces between the marks again.
pub proof fn law_pieces_are_what_was_joined(list: Seq<Seq<char>>, mark: char)
    requires
        list.len() > 0,
        forall|i: int| #![trigger list[i]] 0 <= i < list.len() ==> !list[i].contains(mark),
    ensures
        pieces(joined(list, seq![mark]), mark) == list,
    decreases list.len(),
{
    let s = joined(list, seq![mark]);
    lemma_last_position(s, mark);
    if list.len() == 1 {
        assert(!list[0].contains(mark));
        law_the_last_mark_counts(Seq::empty(), mark, list[0]);
        assert(pieces(s, mark) =~= list);
    } else {
        let rest = list.drop_last();
        let last = list.last();
        assert(last == list[list.len() - 1]);
        assert(forall|i: int| #![trigger rest[i]] 0 <= i < rest.len() ==> rest[i] == list[i]);
        law_pieces_are_what_was_joined(rest, mark);
        let before = joined(rest, seq![mark]);
        assert(s == before + seq![mark] + last);
        law_the_last_mark_counts(before, mark, last);
        assert(s.take(before.len() as int) =~= before);
        assert(s.skip(before.len() as int + 1) =~= last);
        lemma_last_position(before, mark);
        assert(pieces(s, mark) == pieces(before, mark).push(last));
        assert(pieces(s, mark) =~= list);
    }
}

/// Doubling a mark goes through a text piece by piece: a mark becomes two of
/// them, anything else stays.
pub proof fn law_marks_are_doubled(a: Seq<char>, b: Seq<char>, mark: char)
    ensures
        doubled(a + b, mark) == doubled(a, mark) + doubled(b, mark),
        doubled(seq![mark], mark) == seq![mark, mark],
        !b.contains(mark) ==> doubled(b, mark) == b,
    decreases a.len() + b.len(),
{
    let one = seq![mark];
    assert(one.drop_first() =~= Seq::<char>::empty());
    assert(doubled(one.drop_first(), mark) =~= Seq::<char>::empty());
    assert(doubled(one, mark) =~= seq![mark, mark]);
    if a.len() == 0 {
        assert(a + b =~= b);
        assert(doubled(a, mark) =~= Seq::<char>::empty());
        assert(doubled(a, mark) + doubled(b, mark) =~= doubled(b, mark));
    } else {
        law_marks_are_doubled(a.drop_first(), b, mark);
        assert((a + b).drop_first() =~= a.drop_first() + b);
        let rest = doubled(a.drop_first(), mark);
        if a[0] == mark {
            assert(seq![mark, mark] + (rest + doubled(b, mark)) =~= (seq![mark, mark] + rest)
                + doubled(b, mark));
        } else {
            assert(seq![a[0]] + (rest + doubled(b, mark)) =~= (seq![a[0]] + rest) + doubled(
                b,
                mark,
            ));
        }
    }
    lemma_nothing_doubled(b, mark);
}

proof fn lemma_nothing_doubled(b: Seq<char>, mark: char)
    ensures
        !b.contains(mark) ==> doubled(b, mark) == b,
    decreases b.len(),
{
    if b.len() > 0 && !b.contains(mark) {
        assert(b[0] != mark);
        let rest = b.drop_first();
        if rest.contains(mark) {
            let i = choose|i: int| 0 <= i < rest.len() && rest[i] == mark;
            assert(b[i + 1] == mark);
        }
        lemma_nothing_doubled(rest, mark);
        assert(seq![b[0]] + rest =~= b);
    }
}

/// Only the letters from `a` to `z` have a capital, 32 places before them.
pub proof fn law_capitals(s: Seq<char>, i: int)
    requires
        0 <= i < s.len(),
    ensures
        upper(s).len() == s.len(),
        'a' <= s[i] <= 'z' ==> upper(s)[i] as int == s[i] as int - 32,
        !('a' <= s[i] <= 'z') ==> upper(s)[i] == s[i],
{
}

/// Two lists of texts are joined one behind the other with a mark between them.
pub proof fn law_lists_are_joined(a: Seq<Seq<char>>, b: Seq<Seq<char>>, mark: Seq<char>)
    requires
        a.len() > 0,
        b.len() > 0,
    ensures
        joined(a + b, mark) == joined(a, mark) + mark + joined(b, mark),
        b.len() == 1 ==> joined(b, mark) == b[0],
    decreases b.len(),
{
    assert((a + b).drop_last() =~= a + b.drop_last());
    assert((a + b).last() == b.last());
    if b.len() == 1 {
        assert(a + b.drop_last() =~= a);
    } else {
        law_lists_are_joined(a, b.drop_last(), mark);
        let rest = joined(b.drop_last(), mark);
        assert(joined(a, mark) + mark + (rest + mark + b.last()) =~= (joined(a, mark) + mark
            + rest) + mark + b.last());
    }
}

/// Texts are ordered by the first character in which they differ; one that the
/// other goes on from comes first.
pub proof fn law_the_first_difference_orders(
    front: Seq<char>,
    a: char,
    b: char,
    x: Seq<char>,
    y: Seq<char>,
)
    ensures
        a < b ==> lex_less(front + seq![a] + x, front + seq![b] + y),
        lex_less(front, front + seq![a] + x),
        !lex_less(front + seq![a] + x, front),
    decreases front.len(),
{
    let s = front + seq![a] + x;
    let t = front + seq![b] + y;
    if front.len() > 0 {
        let rest = front.drop_first();
        assert(s.drop_first() =~= rest + seq![a] + x);
        assert(t.drop_first() =~= rest + seq![b] + y);
        law_the_first_difference_orders(rest, a, b, x, y);
    }
}

/// The places of a decimal number: each digit further left counts ten times as
/// much.
pub proof fn law_digits_have_their_place(s: Seq<char>, c: char)
    ensures
        digits_value(s.push(c)) == 10 * digits_value(s) + (c as int - '0' as int),
        digits_value(Seq::<char>::empty()) == 0,
{
    assert(s.push(c).drop_last() =~= s);
}

/// A text takes up as many bytes as its UTF-8 encoding has.
pub proof fn law_bytes_are_those_of_utf8(s: Seq<char>)
    ensures
        byte_len(s) == vstd::utf8::encode_utf8(s).len(),
    decreases s.len(),
{
    if s.len() > 0 {
        law_bytes_are_those_of_utf8(s.drop_first());
        lemma_char_bytes(s[0]);
    }
}

proof fn lemma_char_bytes(c: char)
    ensures
        vstd::utf8::encode_scalar(c as u32).len() == char_bytes(c),
{
}

/// A text is cut at a number of bytes into the characters whose encoding has as
/// many; where no characters from the front have as many, it is not cut.
pub proof fn law_cuts_are_counted_in_bytes(s: Seq<char>, n: int, k: int)
    requires
        0 <= k <= s.len(),
    ensures
        cut_at(s, n) == Some(k) <==> vstd::utf8::encode_utf8(s.take(k)).len() == n,
    decreases s.len(),
{
    law_bytes_are_those_of_utf8(s.take(k));
    lemma_cut_counts(s, n, k);
}

proof fn lemma_cut_counts(s: Seq<char>, n: int, k: int)
    requires
        0 <= k <= s.len(),
    ensures
        cut_at(s, n) == Some(k) <==> byte_len(s.take(k)) == n,
    decreases s.len(),
{
    if k == 0 {
        assert(s.take(0) =~= Seq::<char>::empty());
        if n != 0 && s.len() > 0 {
            lemma_cut_inside(s.drop_first(), n - char_bytes(s[0]));
        }
    } else {
        assert(s.take(k).drop_first() =~= s.drop_first().take(k - 1));
        assert(s.take(k)[0] == s[0]);
        lemma_cut_counts(s.drop_first(), n - char_bytes(s[0]), k - 1);
        lemma_cut_inside(s.take(k).drop_first(), 0);
    }
}

} // verus!
