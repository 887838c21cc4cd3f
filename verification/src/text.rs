//! Text as sequences of characters: the operations the other modules build on.

use vstd::prelude::*;
use vstd::string::*;

verus! {

/// `String::push` appends one character at the end.
pub assume_specification[ String::push ](s: &mut String, c: char)
    ensures
        final(s)@ == old(s)@.push(c),
;

// ---------------------------------------------------------------------------
// Characters of a text
// ---------------------------------------------------------------------------
/// The characters of `s`, in order.
pub fn chars_of(s: &str) -> (v: Vec<char>)
    ensures
        v@ == s@,
{
    let mut v: Vec<char> = Vec::new();
    for c in it: s.chars()
        invariant
            v@ == it.seq().take(it.index() as int),
            it.seq() == s@,
    {
        v.push(c);
    }
    v
}

/// The text made of `chars[from..to]`.
pub fn text_between(chars: &[char], from: usize, to: usize) -> (s: String)
    requires
        from <= to <= chars@.len(),
    ensures
        s@ == chars@.subrange(from as int, to as int),
{
    let mut s = String::new();
    let mut i: usize = from;
    while i < to
        invariant
            from <= i <= to <= chars@.len(),
            s@ == chars@.subrange(from as int, i as int),
        decreases to - i,
    {
        s.push(chars[i]);
        i += 1;
        assert(s@ =~= chars@.subrange(from as int, i as int));
    }
    s
}

/// Whether two texts hold the same characters.
pub fn same_text(a: &str, b: &str) -> (r: bool)
    ensures
        r == (a@ == b@),
{
    let x = chars_of(a);
    let y = chars_of(b);
    if x.len() != y.len() {
        return false;
    }
    let mut i: usize = 0;
    while i < x.len()
        invariant
            i <= x@.len(),
            x@.len() == y@.len(),
            x@ == a@,
            y@ == b@,
            forall|k: int| 0 <= k < i ==> x@[k] == y@[k],
        decreases x@.len() - i,
    {
        if x[i] != y[i] {
            return false;
        }
        i += 1;
    }
    assert(a@ =~= b@);
    true
}

/// The contents of a list of texts.
pub open spec fn texts(v: Seq<String>) -> Seq<Seq<char>> {
    v.map_values(|s: String| s@)
}

/// Whether `list` holds a text with the characters of `s`.
pub fn list_has(list: &[String], s: &str) -> (r: bool)
    ensures
        r == texts(list@).contains(s@),
{
    let mut i: usize = 0;
    while i < list.len()
        invariant
            i <= list@.len(),
            forall|k: int| 0 <= k < i ==> texts(list@)[k] != s@,
        decreases list@.len() - i,
    {
        if same_text(list[i].as_str(), s) {
            assert(texts(list@)[i as int] == s@);
            return true;
        }
        i += 1;
    }
    false
}

/// The place of the first `s` in `list`, or the length of the list.
pub open spec fn place_in(list: Seq<Seq<char>>, s: Seq<char>) -> int
    decreases list.len(),
{
    if list.len() == 0 || list[0] == s {
        0
    } else {
        1 + place_in(list.drop_first(), s)
    }
}

/// `place_in` is the first place that holds the text.
pub proof fn lemma_place_in(list: Seq<Seq<char>>, s: Seq<char>)
    ensures
        0 <= place_in(list, s) <= list.len(),
        place_in(list, s) < list.len() ==> list[place_in(list, s)] == s,
        forall|i: int| 0 <= i < place_in(list, s) ==> #[trigger] list[i] != s,
        list.contains(s) <==> place_in(list, s) < list.len(),
    decreases list.len(),
{
    if list.len() > 0 && list[0] != s {
        let rest = list.drop_first();
        lemma_place_in(rest, s);
        assert forall|i: int| 0 <= i < place_in(list, s) implies #[trigger] list[i] != s by {
            if i > 0 {
                assert(rest[i - 1] == list[i]);
            }
        }
    }
}

/// A place that holds the text, with no earlier one, is `place_in`.
pub proof fn lemma_place_is(list: Seq<Seq<char>>, s: Seq<char>, at: int)
    requires
        0 <= at <= list.len(),
        at < list.len() ==> list[at] == s,
        forall|i: int| 0 <= i < at ==> #[trigger] list[i] != s,
    ensures
        place_in(list, s) == at,
{
    lemma_place_in(list, s);
    let p = place_in(list, s);
    if p < at {
        assert(list[p] != s);
    }
    if at < p {
        assert(list[at] != s);
    }
}

/// A list with the same texts as `list`.
pub fn copy_list(list: &[String]) -> (r: Vec<String>)
    ensures
        r@ == list@,
{
    let mut r: Vec<String> = Vec::new();
    let mut i: usize = 0;
    while i < list.len()
        invariant
            i <= list@.len(),
            r@ == list@.take(i as int),
        decreases list@.len() - i,
    {
        r.push(list[i].clone());
        i += 1;
        assert(r@ =~= list@.take(i as int));
    }
    assert(list@.take(i as int) =~= list@);
    r
}

// ---------------------------------------------------------------------------
// Whitespace
// ---------------------------------------------------------------------------
/// Whether `c` has the Unicode property `White_Space`.
pub open spec fn is_space(c: char) -> bool {
    ||| 0x9 <= c as u32 <= 0xd
    ||| c as u32 == 0x20
    ||| c as u32 == 0x85
    ||| c as u32 == 0xa0
    ||| c as u32 == 0x1680
    ||| 0x2000 <= c as u32 <= 0x200a
    ||| c as u32 == 0x2028
    ||| c as u32 == 0x2029
    ||| c as u32 == 0x202f
    ||| c as u32 == 0x205f
    ||| c as u32 == 0x3000
}

/// Whether `c` is white space.
pub fn is_whitespace(c: char) -> (r: bool)
    ensures
        r == is_space(c),
{
    let n: u32 = c as u32;
    (0x9 <= n && n <= 0xd) || n == 0x20 || n == 0x85 || n == 0xa0 || n == 0x1680 || (0x2000 <= n
        && n <= 0x200a) || n == 0x2028 || n == 0x2029 || n == 0x202f || n == 0x205f || n == 0x3000
}

/// Whether a text is empty or white space throughout.
pub open spec fn blank(s: Seq<char>) -> bool {
    forall|i: int| 0 <= i < s.len() ==> is_space(#[trigger] s[i])
}

/// Whether `s` is empty or white space throughout.
pub fn is_blank(s: &str) -> (r: bool)
    ensures
        r == blank(s@),
{
    let v = chars_of(s);
    let mut i: usize = 0;
    while i < v.len()
        invariant
            i <= v@.len(),
            v@ == s@,
            forall|k: int| 0 <= k < i ==> is_space(#[trigger] s@[k]),
        decreases v@.len() - i,
    {
        if !is_whitespace(v[i]) {
            assert(!is_space(s@[i as int]));
            return false;
        }
        i += 1;
    }
    true
}

/// `s` without its leading white space.
pub open spec fn trim_start(s: Seq<char>) -> Seq<char>
    decreases s.len(),
{
    if s.len() > 0 && is_space(s[0]) {
        trim_start(s.drop_first())
    } else {
        s
    }
}

/// `s` without its trailing white space.
pub open spec fn trim_end(s: Seq<char>) -> Seq<char>
    decreases s.len(),
{
    if s.len() > 0 && is_space(s.last()) {
        trim_end(s.drop_last())
    } else {
        s
    }
}

/// `s` without the white space at either end.
pub open spec fn trimmed(s: Seq<char>) -> Seq<char> {
    trim_end(trim_start(s))
}

/// `s` without the white space at either end.
pub fn trim(s: &str) -> (r: String)
    ensures
        r@ == trimmed(s@),
{
    let v = chars_of(s);
    let n = v.len();
    let mut lo: usize = 0;
    assert(v@.subrange(0, n as int) =~= s@);
    while lo < n && is_whitespace(v[lo])
        invariant
            lo <= n,
            n == v@.len(),
            v@ == s@,
            trim_start(s@) == trim_start(v@.subrange(lo as int, n as int)),
        decreases n - lo,
    {
        assert(v@.subrange(lo as int, n as int).drop_first() =~= v@.subrange(lo + 1, n as int));
        lo += 1;
    }
    assert(trim_start(s@) == v@.subrange(lo as int, n as int));
    let mut hi: usize = n;
    while hi > lo && is_whitespace(v[hi - 1])
        invariant
            lo <= hi <= n,
            n == v@.len(),
            v@ == s@,
            trimmed(s@) == trim_end(v@.subrange(lo as int, hi as int)),
        decreases hi,
    {
        assert(v@.subrange(lo as int, hi as int).drop_last() =~= v@.subrange(lo as int, hi - 1));
        hi -= 1;
    }
    text_between(v.as_slice(), lo, hi)
}

// ---------------------------------------------------------------------------
// Searching
// ---------------------------------------------------------------------------
/// Whether `part` stands in `s` at position `i`.
pub open spec fn occurs_at(s: Seq<char>, part: Seq<char>, i: int) -> bool {
    &&& 0 <= i
    &&& i + part.len() <= s.len()
    &&& s.subrange(i, i + part.len()) == part
}

/// Whether `part` stands somewhere in `s`.
pub open spec fn occurs(s: Seq<char>, part: Seq<char>) -> bool {
    exists|i: int| #[trigger] occurs_at(s, part, i)
}

/// The position of the first occurrence of `part` in `s`, if there is one.
pub open spec fn first_occurrence(s: Seq<char>, part: Seq<char>) -> int {
    choose|i: int| #[trigger]
        occurs_at(s, part, i) && forall|j: int| j < i ==> !(#[trigger] occurs_at(s, part, j))
}

/// An occurrence that none precedes is the first one.
pub proof fn lemma_first_occurrence(s: Seq<char>, part: Seq<char>, i: int)
    requires
        occurs_at(s, part, i),
        forall|j: int| j < i ==> !(#[trigger] occurs_at(s, part, j)),
    ensures
        first_occurrence(s, part) == i,
{
    let k = first_occurrence(s, part);
    assert(occurs_at(s, part, k) && forall|j: int| j < k ==> !(#[trigger] occurs_at(s, part, j)));
    if k < i {
        assert(!occurs_at(s, part, k));
    }
    if i < k {
        assert(!occurs_at(s, part, i));
    }
}

/// Whether `part` stands in `s` at position `i`.
fn stands_at(s: &[char], part: &[char], i: usize) -> (r: bool)
    ensures
        r == occurs_at(s@, part@, i as int),
{
    let n: usize = s.len();
    if i > n || part.len() > n - i {
        return false;
    }
    let mut k: usize = 0;
    while k < part.len()
        invariant
            k <= part@.len(),
            i + part@.len() <= n,
            n == s@.len(),
            forall|j: int| 0 <= j < k ==> s@[i + j] == part@[j],
        decreases part@.len() - k,
    {
        if s[i + k] != part[k] {
            assert(s@.subrange(i as int, i + part@.len())[k as int] != part@[k as int]);
            return false;
        }
        k += 1;
    }
    assert(s@.subrange(i as int, i + part@.len()) =~= part@);
    true
}

/// The position of the first occurrence of `part` in `s`.
pub fn find(s: &[char], part: &[char]) -> (r: Option<usize>)
    ensures
        match r {
            Some(i) => occurs_at(s@, part@, i as int) && forall|j: int|
                j < i ==> !(#[trigger] occurs_at(s@, part@, j)),
            None => !occurs(s@, part@),
        },
{
    if part.len() > s.len() {
        return None;
    }
    let last: usize = s.len() - part.len();
    let mut i: usize = 0;
    while i <= last
        invariant
            last == s@.len() - part@.len(),
            i <= last + 1,
            forall|j: int| j < i ==> !(#[trigger] occurs_at(s@, part@, j)),
        decreases last + 1 - i,
    {
        if stands_at(s, part, i) {
            return Some(i);
        }
        if i == last {
            return None;
        }
        i += 1;
    }
    None
}

/// Whether `part` stands somewhere in `s`.
pub fn contains_text(s: &str, part: &str) -> (r: bool)
    ensures
        r == occurs(s@, part@),
{
    let found = find(chars_of(s).as_slice(), chars_of(part).as_slice());
    found.is_some()
}

/// Whether `s` begins with `prefix`.
pub open spec fn begins_with(s: Seq<char>, prefix: Seq<char>) -> bool {
    prefix.len() <= s.len() && s.take(prefix.len() as int) == prefix
}

/// Whether `s` ends with `suffix`.
pub open spec fn finishes_with(s: Seq<char>, suffix: Seq<char>) -> bool {
    suffix.len() <= s.len() && s.skip(s.len() - suffix.len()) == suffix
}

/// Whether `s` begins with `prefix`.
pub fn has_prefix(s: &str, prefix: &str) -> (r: bool)
    ensures
        r == begins_with(s@, prefix@),
{
    let r = stands_at(chars_of(s).as_slice(), chars_of(prefix).as_slice(), 0);
    assert(prefix@.len() <= s@.len() ==> s@.subrange(0, prefix@.len() as int) =~= s@.take(
        prefix@.len() as int,
    ));
    r
}

/// Whether `s` ends with `suffix`.
pub fn has_suffix(s: &str, suffix: &str) -> (r: bool)
    ensures
        r == finishes_with(s@, suffix@),
{
    let v = chars_of(s);
    let w = chars_of(suffix);
    if w.len() > v.len() {
        return false;
    }
    let from: usize = v.len() - w.len();
    assert(s@.subrange(from as int, from + suffix@.len()) =~= s@.skip(from as int));
    stands_at(v.as_slice(), w.as_slice(), from)
}

/// What follows `prefix` in `s`, if `s` begins with it.
pub fn after_prefix(s: &str, prefix: &str) -> (r: Option<String>)
    ensures
        r is Some <==> begins_with(s@, prefix@),
        r matches Some(rest) ==> rest@ == s@.skip(prefix@.len() as int),
{
    if !has_prefix(s, prefix) {
        return None;
    }
    let v = chars_of(s);
    let n = chars_of(prefix).len();
    assert(s@.subrange(n as int, s@.len() as int) =~= s@.skip(n as int));
    Some(text_between(v.as_slice(), n, v.len()))
}

// ---------------------------------------------------------------------------
// Letter case
// ---------------------------------------------------------------------------
/// `c` with an ASCII capital turned into the small letter.
pub open spec fn small_letter(c: char) -> char {
    if 'A' <= c <= 'Z' {
        ((c as u8 + 32) as u8) as char
    } else {
        c
    }
}

/// `s` with every ASCII capital turned into the small letter.
pub open spec fn lowercase(s: Seq<char>) -> Seq<char> {
    s.map_values(|c: char| small_letter(c))
}

/// `s` with every ASCII capital turned into the small letter.
pub fn to_lowercase(s: &str) -> (r: String)
    ensures
        r@ == lowercase(s@),
{
    let mut r = String::new();
    for c in it: s.chars()
        invariant
            r@ == lowercase(it.seq().take(it.index() as int)),
            it.seq() == s@,
    {
        let small = if 'A' <= c && c <= 'Z' {
            (c as u8 + 32) as char
        } else {
            c
        };
        r.push(small);
        assert(r@ =~= lowercase(it.seq().take(it.index() as int + 1)));
    }
    assert(s@.take(s@.len() as int) =~= s@);
    r
}

// ---------------------------------------------------------------------------
// Pieces and lines
// ---------------------------------------------------------------------------
/// The pieces of `s` between the occurrences of `sep`: every other character
/// extends the last piece, and every `sep` opens a new one.
pub open spec fn pieces(s: Seq<char>, sep: char) -> Seq<Seq<char>>
    decreases s.len(),
{
    if s.len() == 0 {
        seq![Seq::<char>::empty()]
    } else {
        let before = pieces(s.drop_last(), sep);
        if s.last() == sep {
            before.push(Seq::<char>::empty())
        } else {
            before.update(before.len() - 1, before.last().push(s.last()))
        }
    }
}

/// There is always at least one piece.
pub proof fn lemma_pieces_nonempty(s: Seq<char>, sep: char)
    ensures
        pieces(s, sep).len() >= 1,
    decreases s.len(),
{
    if s.len() > 0 {
        lemma_pieces_nonempty(s.drop_last(), sep);
    }
}

/// A text without separators is one piece.
pub proof fn lemma_one_piece(s: Seq<char>, sep: char)
    requires
        !s.contains(sep),
    ensures
        pieces(s, sep) == seq![s],
    decreases s.len(),
{
    if s.len() > 0 {
        let before = s.drop_last();
        assert(s[s.len() - 1] != sep);
        assert forall|i: int| 0 <= i < before.len() implies before[i] != sep by {
            assert(s[i] != sep);
        }
        lemma_one_piece(before, sep);
        assert(before.push(s.last()) =~= s);
        assert(pieces(s, sep) =~= seq![s]);
    } else {
        assert(s =~= Seq::<char>::empty());
    }
}

/// The pieces before and after a separator.
pub proof fn lemma_pieces_joined(a: Seq<char>, b: Seq<char>, sep: char)
    ensures
        pieces(a.push(sep) + b, sep) == pieces(a, sep) + pieces(b, sep),
    decreases b.len(),
{
    let whole = a.push(sep) + b;
    if b.len() == 0 {
        assert(whole =~= a.push(sep));
        assert(whole.drop_last() =~= a);
        assert(pieces(whole, sep) =~= pieces(a, sep) + pieces(b, sep));
    } else {
        lemma_pieces_joined(a, b.drop_last(), sep);
        assert(whole.drop_last() =~= a.push(sep) + b.drop_last());
        lemma_pieces_nonempty(b.drop_last(), sep);
        assert(pieces(whole, sep) =~= pieces(a, sep) + pieces(b, sep));
    }
}

/// The pieces of `s` between the occurrences of `sep`.
pub fn split_at_char(s: &str, sep: char) -> (r: Vec<String>)
    ensures
        texts(r@) == pieces(s@, sep),
{
    let v = chars_of(s);
    let mut r: Vec<String> = Vec::new();
    let mut last = String::new();
    let mut i: usize = 0;
    assert(v@.take(0) =~= Seq::<char>::empty());
    assert(texts(r@).push(last@) =~= pieces(v@.take(0), sep));
    while i < v.len()
        invariant
            i <= v@.len(),
            v@ == s@,
            texts(r@).push(last@) == pieces(v@.take(i as int), sep),
        decreases v@.len() - i,
    {
        let c = v[i];
        let ghost before = pieces(v@.take(i as int), sep);
        assert(v@.take(i + 1).drop_last() =~= v@.take(i as int));
        i += 1;
        if c == sep {
            let ghost done = texts(r@).push(last@);
            r.push(last);
            last = String::new();
            assert(texts(r@).push(last@) =~= pieces(v@.take(i as int), sep)) by {
                assert(texts(r@) =~= done);
            }
        } else {
            last.push(c);
            assert(texts(r@).push(last@) =~= pieces(v@.take(i as int), sep));
        }
    }
    assert(v@.take(i as int) =~= s@);
    let ghost done = texts(r@).push(last@);
    r.push(last);
    assert(texts(r@) =~= done);
    r
}

/// The position of the first line feed, or the length of `s`.
pub open spec fn line_end(s: Seq<char>) -> int
    decreases s.len(),
{
    if s.len() == 0 || s[0] == '\n' {
        0
    } else {
        1 + line_end(s.drop_first())
    }
}

/// The first line of a text that is not empty: what precedes the first line
/// feed, without the carriage return that belongs to that line feed. An empty
/// text has no line.
pub open spec fn first_line(s: Seq<char>) -> Option<Seq<char>> {
    let end = line_end(s);
    if s.len() == 0 {
        None
    } else if end < s.len() && end > 0 && s[end - 1] == '\r' {
        Some(s.take(end - 1))
    } else {
        Some(s.take(end))
    }
}

/// `line_end` is the first position that holds a line feed.
pub proof fn lemma_line_end(s: Seq<char>)
    ensures
        0 <= line_end(s) <= s.len(),
        line_end(s) < s.len() ==> s[line_end(s)] == '\n',
        forall|i: int| 0 <= i < line_end(s) ==> s[i] != '\n',
    decreases s.len(),
{
    if s.len() > 0 && s[0] != '\n' {
        lemma_line_end(s.drop_first());
        assert forall|i: int| 0 <= i < line_end(s) implies s[i] != '\n' by {
            if i > 0 {
                assert(s.drop_first()[i - 1] == s[i]);
            }
        }
    }
}

/// The first line of `s`; `None` if `s` is empty.
pub fn line_one(s: &str) -> (r: Option<String>)
    ensures
        r is Some <==> first_line(s@) is Some,
        r matches Some(line) ==> line@ == first_line(s@)->0,
{
    let v = chars_of(s);
    if v.len() == 0 {
        return None;
    }
    proof {
        lemma_line_end(s@);
    }
    let mut end: usize = 0;
    while end < v.len() && v[end] != '\n'
        invariant
            v@ == s@,
            end <= v@.len(),
            forall|k: int| 0 <= k < end ==> v@[k] != '\n',
        decreases v@.len() - end,
    {
        end += 1;
    }
    assert(end as int == line_end(s@)) by {
        if (end as int) < line_end(s@) {
            assert(s@[end as int] != '\n');
        }
        if line_end(s@) < end as int {
            assert(v@[line_end(s@)] != '\n');
        }
    }
    assert(s@.subrange(0, end as int) =~= s@.take(end as int));
    if end < v.len() && end > 0 && v[end - 1] == '\r' {
        assert(s@.subrange(0, end - 1) =~= s@.take(end - 1));
        Some(text_between(v.as_slice(), 0, end - 1))
    } else {
        Some(text_between(v.as_slice(), 0, end))
    }
}

/// The first line of a text, or the text itself if it is empty.
pub open spec fn headline(s: Seq<char>) -> Seq<char> {
    match first_line(s) {
        Some(line) => line,
        None => s,
    }
}

/// The first line of `s`, or `s` itself if it is empty.
pub fn head_line(s: &str) -> (r: String)
    ensures
        r@ == headline(s@),
{
    match line_one(s) {
        Some(line) => line,
        None => s.to_string(),
    }
}

// ---------------------------------------------------------------------------
// Joining
// ---------------------------------------------------------------------------
/// The parts one after the other, with `sep` between neighbours.
pub open spec fn joined(parts: Seq<Seq<char>>, sep: Seq<char>) -> Seq<char>
    decreases parts.len(),
{
    if parts.len() == 0 {
        Seq::empty()
    } else if parts.len() == 1 {
        parts[0]
    } else {
        joined(parts.drop_last(), sep) + sep + parts.last()
    }
}

/// The parts one after the other, with `sep` between neighbours.
pub fn join(parts: &[String], sep: &str) -> (r: String)
    ensures
        r@ == joined(texts(parts@), sep@),
{
    let mut r = String::new();
    let mut i: usize = 0;
    while i < parts.len()
        invariant
            i <= parts@.len(),
            r@ == joined(texts(parts@).take(i as int), sep@),
        decreases parts@.len() - i,
    {
        let ghost upto = texts(parts@).take(i + 1);
        assert(upto.drop_last() =~= texts(parts@).take(i as int));
        if i > 0 {
            r.append(sep);
        }
        let ghost before = r@;
        r.append(parts[i].as_str());
        proof {
            if i == 0 {
                assert(r@ =~= upto[0]);
            }
        }
        i += 1;
    }
    assert(texts(parts@).take(i as int) =~= texts(parts@));
    r
}

/// All parts, one after the other.
pub open spec fn flattened(parts: Seq<Seq<char>>) -> Seq<char>
    decreases parts.len(),
{
    if parts.len() == 0 {
        Seq::empty()
    } else {
        flattened(parts.drop_last()) + parts.last()
    }
}

/// `n` copies of `c`.
pub open spec fn repeated(c: char, n: int) -> Seq<char> {
    Seq::new(
        if n > 0 {
            n as nat
        } else {
            0
        },
        |i: int| c,
    )
}

/// Appends `n` copies of `c` to `s`.
pub fn push_repeated(s: &mut String, c: char, n: usize)
    ensures
        final(s)@ == old(s)@ + repeated(c, n as int),
{
    let mut i: usize = 0;
    assert(s@ =~= old(s)@ + repeated(c, 0));
    while i < n
        invariant
            i <= n,
            s@ == old(s)@ + repeated(c, i as int),
        decreases n - i,
    {
        s.push(c);
        i += 1;
        assert(s@ =~= old(s)@ + repeated(c, i as int));
    }
}

// ---------------------------------------------------------------------------
// Laws
// ---------------------------------------------------------------------------
/// Space at the start is passed over.
proof fn lemma_trim_start_is(s: Seq<char>, before: Seq<char>, rest: Seq<char>)
    requires
        s == before + rest,
        blank(before),
        rest.len() > 0 ==> !is_space(rest[0]),
    ensures
        trim_start(s) == rest,
    decreases before.len(),
{
    if before.len() == 0 {
        assert(s =~= rest);
    } else {
        assert(is_space(before[0]));
        assert(s[0] == before[0]);
        assert(s.drop_first() =~= before.drop_first() + rest);
        assert forall|i: int| 0 <= i < before.len() - 1 implies is_space(
            #[trigger] before.drop_first()[i],
        ) by {
            assert(is_space(before[i + 1]));
        }
        lemma_trim_start_is(s.drop_first(), before.drop_first(), rest);
    }
}

/// Space at the end is passed over.
proof fn lemma_trim_end_is(s: Seq<char>, rest: Seq<char>, behind: Seq<char>)
    requires
        s == rest + behind,
        blank(behind),
        rest.len() > 0 ==> !is_space(rest.last()),
    ensures
        trim_end(s) == rest,
    decreases behind.len(),
{
    if behind.len() == 0 {
        assert(s =~= rest);
    } else {
        assert(is_space(behind[behind.len() - 1]));
        assert(s.last() == behind.last());
        assert(s.drop_last() =~= rest + behind.drop_last());
        assert forall|i: int| 0 <= i < behind.len() - 1 implies is_space(
            #[trigger] behind.drop_last()[i],
        ) by {
            assert(is_space(behind[i]));
        }
        lemma_trim_end_is(s.drop_last(), rest, behind.drop_last());
    }
}

/// A text without space at its ends is what is left of it when space is put around
/// it and taken away again.
pub proof fn lemma_trimmed_is(s: Seq<char>, before: Seq<char>, rest: Seq<char>, behind: Seq<char>)
    requires
        s == before + rest + behind,
        blank(before),
        blank(behind),
        rest.len() > 0,
        !is_space(rest[0]),
        !is_space(rest.last()),
    ensures
        trimmed(s) == rest,
{
    assert(s =~= before + (rest + behind));
    lemma_trim_start_is(s, before, rest + behind);
    lemma_trim_end_is(rest + behind, rest, behind);
}

/// Trimming takes away space, all of it at either end, and nothing else.
pub proof fn law_trimming(s: Seq<char>) -> (r: (Seq<char>, Seq<char>))
    ensures
        s == r.0 + trimmed(s) + r.1,
        blank(r.0),
        blank(r.1),
        trimmed(s).len() > 0 ==> !is_space(trimmed(s)[0]) && !is_space(trimmed(s).last()),
        blank(s) <==> trimmed(s).len() == 0,
{
    let a = lemma_trim_start(s);
    let b = lemma_trim_end(trim_start(s));
    assert(s =~= a + trimmed(s) + b);
    if trimmed(s).len() > 0 {
        assert(trimmed(s)[0] == trim_start(s)[0]);
        let i = a.len() as int;
        assert(s[i] == trimmed(s)[0]);
    } else {
        assert(s =~= a + b);
        assert forall|i: int| 0 <= i < s.len() implies is_space(#[trigger] s[i]) by {
            if i < a.len() {
                assert(is_space(a[i]));
            } else {
                assert(is_space(b[i - a.len()]));
            }
        }
    }
    (a, b)
}

/// What is passed over at the start is space.
proof fn lemma_trim_start(s: Seq<char>) -> (before: Seq<char>)
    ensures
        s == before + trim_start(s),
        blank(before),
        trim_start(s).len() > 0 ==> !is_space(trim_start(s)[0]),
    decreases s.len(),
{
    if s.len() > 0 && is_space(s[0]) {
        let rest = lemma_trim_start(s.drop_first());
        let before = seq![s[0]] + rest;
        assert forall|i: int| 0 <= i < before.len() implies is_space(#[trigger] before[i]) by {
            if i > 0 {
                assert(is_space(rest[i - 1]));
            }
        }
        let left = trim_start(s);
        assert(s.drop_first() == rest + left);
        assert(s =~= seq![s[0]] + s.drop_first());
        assert(seq![s[0]] + (rest + left) =~= before + left);
        before
    } else {
        assert(s =~= Seq::<char>::empty() + s);
        Seq::empty()
    }
}

/// What is passed over at the end is space.
proof fn lemma_trim_end(s: Seq<char>) -> (behind: Seq<char>)
    ensures
        s == trim_end(s) + behind,
        blank(behind),
        trim_end(s).len() > 0 ==> !is_space(trim_end(s).last()),
    decreases s.len(),
{
    if s.len() > 0 && is_space(s.last()) {
        let rest = lemma_trim_end(s.drop_last());
        let behind = rest.push(s.last());
        assert forall|i: int| 0 <= i < behind.len() implies is_space(#[trigger] behind[i]) by {
            if i < rest.len() {
                assert(is_space(rest[i]));
            }
        }
        let left = trim_end(s);
        assert(s.drop_last() == left + rest);
        assert(s =~= s.drop_last().push(s.last()));
        assert((left + rest).push(s.last()) =~= left + behind);
        behind
    } else {
        assert(s =~= s + Seq::<char>::empty());
        Seq::empty()
    }
}

/// Splitting loses nothing: the pieces with the separator between them are the
/// text, and no piece holds the separator.
pub proof fn law_splitting(s: Seq<char>, sep: char)
    ensures
        pieces(s, sep).len() >= 1,
        joined(pieces(s, sep), seq![sep]) == s,
        forall|i: int|
            0 <= i < pieces(s, sep).len() ==> !(#[trigger] pieces(s, sep)[i]).contains(sep),
    decreases s.len(),
{
    let p = pieces(s, sep);
    if s.len() == 0 {
        assert(p[0] =~= Seq::<char>::empty());
        assert(joined(p, seq![sep]) =~= s);
    } else {
        let before = pieces(s.drop_last(), sep);
        law_splitting(s.drop_last(), sep);
        if s.last() == sep {
            assert(p.drop_last() =~= before);
            assert(joined(p, seq![sep]) =~= s);
        } else {
            let end = before.last().push(s.last());
            assert(p.drop_last() =~= before.drop_last());
            assert(p.last() == end);
            assert(s =~= s.drop_last().push(s.last()));
            if before.len() == 1 {
                assert(joined(p, seq![sep]) =~= s);
            } else {
                let head = joined(before.drop_last(), seq![sep]) + seq![sep];
                assert(s.drop_last() == head + before.last());
                assert(head + end =~= (head + before.last()).push(s.last()));
            }
            assert forall|i: int| 0 <= i < p.len() implies !(#[trigger] p[i]).contains(sep) by {
                if i < before.len() - 1 {
                    assert(p[i] == before[i]);
                } else {
                    assert(!before[before.len() - 1].contains(sep));
                    assert forall|k: int| 0 <= k < end.len() implies end[k] != sep by {
                        if k < before.last().len() {
                            assert(before.last().contains(before.last()[k]));
                        }
                    }
                }
            }
        }
    }
}

/// The first line of a text is what stands before its first line break, which is
/// a newline with or without a carriage return.
pub proof fn law_first_line(s: Seq<char>)
    requires
        s.len() > 0,
    ensures
        first_line(s) is Some,
        headline(s) == first_line(s)->0,
        ({
            let line = headline(s);
            &&& !line.contains('\n')
            &&& line.len() <= s.len() && s.take(line.len() as int) == line
            &&& {
                ||| line == s
                ||| s[line.len() as int] == '\n' && (line.len() > 0 ==> line.last() != '\r')
                ||| line.len() + 1 < s.len() && s[line.len() as int] == '\r' && s[line.len() as int
                    + 1] == '\n'
            }
        }),
{
    lemma_line_end(s);
    let end = line_end(s);
    let line = headline(s);
    assert forall|i: int| 0 <= i < line.len() implies line[i] != '\n' by {
        assert(line[i] == s[i]);
    }
    if end == s.len() {
        assert(line =~= s);
    }
    assert(s.take(line.len() as int) =~= line);
}

/// Letters of the basic alphabet are made small, and nothing else changes.
pub proof fn law_small_letters(s: Seq<char>, i: int)
    requires
        0 <= i < s.len(),
    ensures
        lowercase(s).len() == s.len(),
        'A' <= s[i] <= 'Z' ==> lowercase(s)[i] as int == s[i] as int + 32,
        !('A' <= s[i] <= 'Z') ==> lowercase(s)[i] == s[i],
        lowercase(lowercase(s)) == lowercase(s),
{
    assert forall|c: char| #[trigger] small_letter(small_letter(c)) == small_letter(c) by {
        if 'A' <= c <= 'Z' {
            assert(small_letter(c) as int == c as int + 32);
        }
    }
    assert(lowercase(lowercase(s)) =~= lowercase(s));
    if 'A' <= s[i] <= 'Z' {
        assert(small_letter(s[i]) as int == s[i] as int + 32);
    }
}

/// Joining a list puts the separator between neighbours and nowhere else.
pub proof fn law_joining(a: Seq<Seq<char>>, b: Seq<Seq<char>>, sep: Seq<char>, one: Seq<char>)
    ensures
        joined(seq![one], sep) == one,
        joined(Seq::empty(), sep) == Seq::<char>::empty(),
        a.len() > 0 && b.len() > 0 ==> joined(a + b, sep) == joined(a, sep) + sep + joined(b, sep),
    decreases b.len(),
{
    if a.len() > 0 && b.len() > 0 {
        let all = a + b;
        if b.len() == 1 {
            assert(all.drop_last() =~= a);
            assert(joined(all, sep) =~= joined(a, sep) + sep + joined(b, sep));
        } else {
            law_joining(a, b.drop_last(), sep, one);
            assert(all.drop_last() =~= a + b.drop_last());
            assert(joined(all, sep) =~= joined(a, sep) + sep + joined(b, sep));
        }
    }
}

/// Parts make up a text one after the other: what two lists make up is what each
/// makes up, one part makes up itself, and no part nothing.
pub proof fn law_parts_of_a_text(a: Seq<Seq<char>>, b: Seq<Seq<char>>, one: Seq<char>)
    ensures
        flattened(a + b) == flattened(a) + flattened(b),
        flattened(seq![one]) == one,
        flattened(Seq::empty()) == Seq::<char>::empty(),
    decreases b.len(),
{
    assert(seq![one].drop_last() =~= Seq::<Seq<char>>::empty());
    assert(flattened(Seq::<Seq<char>>::empty()) == Seq::<char>::empty());
    assert(flattened(seq![one]) =~= one);
    if b.len() == 0 {
        assert(a + b =~= a);
        assert(flattened(a + b) =~= flattened(a) + flattened(b));
    } else {
        assert((a + b).drop_last() =~= a + b.drop_last());
        law_parts_of_a_text(a, b.drop_last(), one);
        assert(flattened(a + b) =~= flattened(a) + flattened(b));
    }
}

/// A text is found in whatever stands around it.
pub proof fn lemma_found_within(a: Seq<char>, part: Seq<char>, b: Seq<char>)
    ensures
        occurs(a + part + b, part),
{
    let s = a + part + b;
    assert(s.subrange(a.len() as int, (a.len() + part.len()) as int) =~= part);
    assert(occurs_at(s, part, a.len() as int));
}

/// What is known of a list of texts is every text of it.
pub proof fn law_model_of_a_list(list: Seq<String>, i: int)
    requires
        0 <= i < list.len(),
    ensures
        texts(list).len() == list.len(),
        texts(list)[i] == list[i]@,
{
}

/// A text occurs in another if and only if something, perhaps nothing, stands before
/// and behind it there.
pub proof fn law_what_occurs(s: Seq<char>, part: Seq<char>)
    ensures
        occurs(s, part) <==> exists|a: Seq<char>, b: Seq<char>| s == #[trigger] (a + part + b),
{
    if occurs(s, part) {
        let i = choose|i: int| #[trigger] occurs_at(s, part, i);
        let (a, b) = (s.take(i), s.skip(i + part.len()));
        assert(s =~= a + s.subrange(i, i + part.len()) + b);
        assert(s == a + part + b);
    }
    if exists|a: Seq<char>, b: Seq<char>| s == #[trigger] (a + part + b) {
        let (a, b) = choose|a: Seq<char>, b: Seq<char>| s == #[trigger] (a + part + b);
        lemma_found_within(a, part, b);
    }
}

/// The beginning and the end of a text are what other texts start and end with.
pub proof fn law_beginnings_and_ends(s: Seq<char>, part: Seq<char>)
    ensures
        begins_with(s, part) <==> exists|b: Seq<char>| s == #[trigger] (part + b),
        finishes_with(s, part) <==> exists|a: Seq<char>| s == #[trigger] (a + part),
{
    if begins_with(s, part) {
        assert(s =~= s.take(part.len() as int) + s.skip(part.len() as int));
        assert(s == part + s.skip(part.len() as int));
    }
    if exists|b: Seq<char>| s == #[trigger] (part + b) {
        let b = choose|b: Seq<char>| s == #[trigger] (part + b);
        assert(s.take(part.len() as int) =~= part);
    }
    if finishes_with(s, part) {
        let n = s.len() - part.len();
        assert(s =~= s.take(n) + s.skip(n));
        assert(s == s.take(n) + part);
    }
    if exists|a: Seq<char>| s == #[trigger] (a + part) {
        let a = choose|a: Seq<char>| s == #[trigger] (a + part);
        assert(s.skip(s.len() - part.len()) =~= part);
    }
}

/// A character that is repeated stands there as often as asked for, and not at all
/// for a number that is not positive.
pub proof fn law_repeating(c: char, n: int, i: int)
    ensures
        n > 0 ==> repeated(c, n).len() == n,
        n <= 0 ==> repeated(c, n).len() == 0,
        0 <= i < n ==> repeated(c, n)[i] == c,
{
}

/// The characters that count as space are the usual blank, tabs and line breaks and
/// the other characters that are nothing but space; letters, digits and signs do not.
pub proof fn law_what_is_space(c: char)
    ensures
        c == ' ' || c == '\t' || c == '\n' || c == '\r' ==> is_space(c),
        0x21 <= c as u32 <= 0x7e ==> !is_space(c),
        c as u32 <= 0x08 || 0x0e <= c as u32 <= 0x1f ==> !is_space(c),
        0xa1 <= c as u32 <= 0x167f ==> !is_space(c),
        c as u32 > 0x3000 ==> !is_space(c),
        c as u32 == 0x0b || c as u32 == 0x0c || c as u32 == 0x85 || c as u32 == 0xa0 || c as u32
            == 0x1680 || c as u32 == 0x3000 ==> is_space(c),
        0x2000 <= c as u32 <= 0x200a || c as u32 == 0x2028 || c as u32 == 0x2029 || c as u32
            == 0x202f || c as u32 == 0x205f ==> is_space(c),
{
}

} // verus!
