//! Character and string helpers. Strings are sequences of characters in every
//! contract; byte offsets appear only where an editor cursor or a byte budget
//! needs them, and then always next to the character index they stand for.
use vstd::prelude::*;
use vstd::string::*;
use vstd::utf8::*;

verus! {

/// `String::push` appends one character.
pub assume_specification[ String::push ](s: &mut String, c: char)
    ensures
        final(s)@ == old(s)@.push(c),
;

// ---------------------------------------------------------------------------
// Character classes
// ---------------------------------------------------------------------------

/// The characters with the Unicode `White_Space` property.
pub open spec fn white(c: char) -> bool {
    let n = c as u32;
    ||| 0x09 <= n <= 0x0d
    ||| n == 0x20
    ||| n == 0x85
    ||| n == 0xa0
    ||| n == 0x1680
    ||| 0x2000 <= n <= 0x200a
    ||| n == 0x2028
    ||| n == 0x2029
    ||| n == 0x202f
    ||| n == 0x205f
    ||| n == 0x3000
}

/// The C0 and C1 control codes and `DEL`.
pub open spec fn control(c: char) -> bool {
    let n = c as u32;
    n <= 0x1f || 0x7f <= n <= 0x9f
}

/// Characters that must never reach a terminal cell: control codes, line and
/// paragraph separators, bidirectional marks and invisible format characters.
/// The two joiners U+200C and U+200D are kept, emoji and Persian need them.
pub open spec fn hostile(c: char) -> bool {
    let n = c as u32;
    ||| control(c)
    ||| n == 0x061c
    ||| n == 0x180e
    ||| n == 0x200b
    ||| n == 0x200e
    ||| n == 0x200f
    ||| 0x2028 <= n <= 0x202e
    ||| 0x2060 <= n <= 0x206f
    ||| n == 0xfeff
    ||| 0xfff9 <= n <= 0xfffb
}

/// Printable ASCII without the space.
pub open spec fn ascii_graphic(c: char) -> bool {
    0x21 <= c as u32 <= 0x7e
}

/// Whether `c` is white space.
pub fn is_white_space(c: char) -> (r: bool)
    ensures
        r == white(c),
{
    let n: u32 = c as u32;
    (0x09 <= n && n <= 0x0d) || n == 0x20 || n == 0x85 || n == 0xa0 || n == 0x1680
        || (0x2000 <= n && n <= 0x200a) || n == 0x2028 || n == 0x2029 || n == 0x202f
        || n == 0x205f || n == 0x3000
}

/// Whether `c` is a control code.
pub fn is_control_char(c: char) -> (r: bool)
    ensures
        r == control(c),
{
    let n: u32 = c as u32;
    n <= 0x1f || (0x7f <= n && n <= 0x9f)
}

/// Whether `c` must be kept away from the terminal.
pub fn is_unsafe_terminal_char(c: char) -> (r: bool)
    ensures
        r == hostile(c),
{
    let n: u32 = c as u32;
    is_control_char(c) || n == 0x061c || n == 0x180e || n == 0x200b || n == 0x200e || n == 0x200f
        || (0x2028 <= n && n <= 0x202e) || (0x2060 <= n && n <= 0x206f) || n == 0xfeff || (0xfff9
        <= n && n <= 0xfffb)
}

/// Whether `c` is printable ASCII other than the space.
pub fn is_graphic_ascii(c: char) -> (r: bool)
    ensures
        r == ascii_graphic(c),
{
    let n: u32 = c as u32;
    0x21 <= n && n <= 0x7e
}

// ---------------------------------------------------------------------------
// Between strings and character vectors
// ---------------------------------------------------------------------------

/// The characters of a string, in order.
pub fn chars_of(s: &str) -> (r: Vec<char>)
    ensures
        r@ == s@,
{
    let mut out: Vec<char> = Vec::new();
    for c in it: s.chars()
        invariant
            out@ == it.seq().take(it.index()),
            it.seq() == s@,
    {
        out.push(c);
    }
    assert(s@.take(s@.len() as int) == s@);
    out
}

/// The string made of `v[from..to]`.
pub fn string_of(v: &Vec<char>, from: usize, to: usize) -> (r: String)
    requires
        from <= to <= v@.len(),
    ensures
        r@ == v@.subrange(from as int, to as int),
{
    let mut out = String::new();
    let mut i: usize = from;
    while i < to
        invariant
            from <= i <= to <= v@.len(),
            out@ == v@.subrange(from as int, i as int),
        decreases to - i,
    {
        out.push(v[i]);
        i += 1;
    }
    out
}

/// Whether two strings hold the same characters.
pub fn same(a: &str, b: &str) -> (r: bool)
    ensures
        r == (a@ == b@),
{
    let x = a.as_bytes();
    let y = b.as_bytes();
    proof {
        lemma_encode_injective(a@, b@);
    }
    if x.len() != y.len() {
        return false;
    }
    let mut i: usize = 0;
    while i < x.len()
        invariant
            x@.len() == y@.len(),
            i <= x@.len(),
            x@ == a.spec_bytes(),
            y@ == b.spec_bytes(),
            forall|j: int| 0 <= j < i ==> x@[j] == y@[j],
            encode_utf8(a@) == encode_utf8(b@) ==> a@ == b@,
        decreases x@.len() - i,
    {
        if x[i] != y[i] {
            return false;
        }
        i += 1;
    }
    assert(x@ =~= y@);
    true
}

// ---------------------------------------------------------------------------
// UTF-8 offsets
// ---------------------------------------------------------------------------

/// Bytes that the UTF-8 encoding of `s` takes.
pub open spec fn byte_len(s: Seq<char>) -> nat {
    encode_utf8(s).len()
}

/// Byte offset at which character `k` of `s` starts.
pub open spec fn offset(s: Seq<char>, k: int) -> nat {
    byte_len(s.take(k))
}

/// Encoding is a homomorphism of concatenation.
pub proof fn lemma_encode_concat(a: Seq<char>, b: Seq<char>)
    ensures
        encode_utf8(a + b) == encode_utf8(a) + encode_utf8(b),
        byte_len(a + b) == byte_len(a) + byte_len(b),
    decreases a.len(),
{
    if a.len() == 0 {
        assert(a + b =~= b);
        assert(encode_utf8(a) + encode_utf8(b) =~= encode_utf8(b));
    } else {
        let s = a + b;
        assert(s.drop_first() =~= a.drop_first() + b);
        assert(s[0] == a[0]);
        lemma_encode_concat(a.drop_first(), b);
        assert(encode_utf8(s) =~= encode_utf8(a) + encode_utf8(b));
    }
}

/// Different texts have different encodings.
pub proof fn lemma_encode_injective(a: Seq<char>, b: Seq<char>)
    ensures
        encode_utf8(a) == encode_utf8(b) ==> a == b,
{
    encode_utf8_decode_utf8(a);
    encode_utf8_decode_utf8(b);
}

/// Every character takes one to four bytes.
pub proof fn lemma_char_bytes(c: char)
    ensures
        1 <= encode_scalar(c as u32).len() <= 4,
        byte_len(seq![c]) == encode_scalar(c as u32).len(),
{
    char_is_scalar(c);
    let s = seq![c];
    assert(s.drop_first() =~= Seq::<char>::empty());
    assert(encode_utf8(s.drop_first()) =~= Seq::<u8>::empty());
    assert(encode_utf8(s) =~= encode_scalar(c as u32));
}

/// The offset of the next character is at least one byte further on.
pub proof fn lemma_offset_step(s: Seq<char>, k: int)
    requires
        0 <= k < s.len(),
    ensures
        offset(s, k + 1) == offset(s, k) + byte_len(seq![s[k]]),
        1 <= byte_len(seq![s[k]]) <= 4,
{
    assert(s.take(k + 1) =~= s.take(k) + seq![s[k]]);
    lemma_encode_concat(s.take(k), seq![s[k]]);
    lemma_char_bytes(s[k]);
}

/// Offsets grow with the character index.
pub proof fn lemma_offset_monotonic(s: Seq<char>, j: int, k: int)
    requires
        0 <= j <= k <= s.len(),
    ensures
        offset(s, j) <= offset(s, k),
        j < k ==> offset(s, j) < offset(s, k),
        k - j <= offset(s, k) - offset(s, j),
    decreases k - j,
{
    if j < k {
        lemma_offset_monotonic(s, j, k - 1);
        lemma_offset_step(s, k - 1);
    }
}

/// The first offset is zero and the last one is the length in bytes.
pub proof fn lemma_offset_ends(s: Seq<char>)
    ensures
        offset(s, 0) == 0,
        offset(s, s.len() as int) == byte_len(s),
{
    assert(s.take(0) =~= Seq::<char>::empty());
    assert(s.take(s.len() as int) =~= s);
}

/// A prefix and the rest share out the bytes.
pub proof fn lemma_offset_split(s: Seq<char>, k: int)
    requires
        0 <= k <= s.len(),
    ensures
        encode_utf8(s) == encode_utf8(s.take(k)) + encode_utf8(s.skip(k)),
        byte_len(s.skip(k)) == byte_len(s) - offset(s, k),
{
    assert(s =~= s.take(k) + s.skip(k));
    lemma_encode_concat(s.take(k), s.skip(k));
}

/// A byte index is a boundary exactly if some character starts there, or the
/// text ends there.
pub proof fn lemma_boundary(s: Seq<char>, i: int)
    ensures
        is_char_boundary(encode_utf8(s), i) <==> exists|k: int|
            0 <= k <= s.len() && #[trigger] offset(s, k) == i,
    decreases s.len(),
{
    let bytes = encode_utf8(s);
    encode_utf8_valid_utf8(s);
    lemma_offset_ends(s);
    if i == 0 {
        assert(offset(s, 0) == i);
    } else if i < 0 || bytes.len() < i {
        assert forall|k: int| 0 <= k <= s.len() implies #[trigger] offset(s, k) != i by {
            lemma_offset_monotonic(s, k, s.len() as int);
        }
    } else {
        assert(s.len() > 0);
        let rest = s.drop_first();
        let head = encode_scalar(s[0] as u32);
        encode_utf8_first_scalar(s);
        assert(pop_first_scalar(bytes) =~= encode_utf8(rest));
        lemma_boundary(rest, i - head.len());
        assert forall|k: int| 0 <= k <= rest.len() implies #[trigger] offset(rest, k) + head.len()
            == offset(s, k + 1) by {
            let p = s.take(k + 1);
            assert(p.drop_first() =~= rest.take(k));
            assert(p[0] == s[0]);
        }
        if is_char_boundary(bytes, i) {
            let k = choose|k: int| 0 <= k <= rest.len() && #[trigger] offset(rest, k) == i
                - head.len();
            assert(offset(s, k + 1) == i);
        }
        if exists|k: int| 0 <= k <= s.len() && #[trigger] offset(s, k) == i {
            let k = choose|k: int| 0 <= k <= s.len() && #[trigger] offset(s, k) == i;
            assert(k != 0);
            assert(offset(rest, k - 1) + head.len() == offset(s, k - 1 + 1));
            assert(offset(rest, k - 1) == i - head.len());
        }
    }
}

/// Character index of the boundary at byte `i`.
pub open spec fn index_at(s: Seq<char>, i: int) -> int {
    choose|k: int| 0 <= k <= s.len() && #[trigger] offset(s, k) == i
}

/// Byte `i` is where a character starts, or the end.
pub open spec fn on_boundary(s: Seq<char>, i: int) -> bool {
    exists|k: int| 0 <= k <= s.len() && #[trigger] offset(s, k) == i
}

/// There is only one character index at an offset.
pub proof fn lemma_index_unique(s: Seq<char>, k: int)
    requires
        0 <= k <= s.len(),
    ensures
        on_boundary(s, offset(s, k) as int),
        index_at(s, offset(s, k) as int) == k,
{
    let i = offset(s, k) as int;
    assert(on_boundary(s, i));
    let j = index_at(s, i);
    if j < k {
        lemma_offset_monotonic(s, j, k);
    } else if k < j {
        lemma_offset_monotonic(s, k, j);
    }
}

/// Split a string at a character boundary given in bytes.
pub fn split_bytes(s: &str, mid: usize) -> (r: (&str, &str))
    requires
        on_boundary(s@, mid as int),
    ensures
        r.0@ == s@.take(index_at(s@, mid as int)),
        r.1@ == s@.skip(index_at(s@, mid as int)),
{
    proof {
        lemma_boundary(s@, mid as int);
    }
    let r = s.split_at(mid);
    proof {
        let k = index_at(s@, mid as int);
        lemma_offset_split(s@, k);
        let a = encode_utf8(s@.take(k));
        let b = encode_utf8(s@.skip(k));
        assert(encode_utf8(s@).subrange(0, mid as int) =~= a);
        assert(encode_utf8(s@).subrange(mid as int, encode_utf8(s@).len() as int) =~= b);
        lemma_encode_injective(r.0@, s@.take(k));
        lemma_encode_injective(r.1@, s@.skip(k));
    }
    r
}

/// The length of a string in bytes.
pub fn len_bytes(s: &str) -> (r: usize)
    ensures
        r == byte_len(s@),
{
    s.as_bytes().len()
}

/// Whether byte `i` of `s` is a character boundary.
pub fn boundary_at(s: &str, i: usize) -> (r: bool)
    ensures
        r == on_boundary(s@, i as int),
{
    proof {
        lemma_boundary(s@, i as int);
    }
    s.is_char_boundary(i)
}

/// Largest character boundary at or below `index`.
pub fn floor_char_boundary(text: &str, index: usize) -> (r: usize)
    ensures
        index >= byte_len(text@) ==> r == byte_len(text@),
        r <= index,
        on_boundary(text@, r as int),
        forall|b: int| #[trigger] on_boundary(text@, b) && b <= index ==> b <= r,
{
    let total: usize = len_bytes(text);
    proof {
        lemma_offset_ends(text@);
        lemma_index_unique(text@, 0);
        lemma_index_unique(text@, text@.len() as int);
        assert forall|b: int| #[trigger] on_boundary(text@, b) implies b <= byte_len(text@) by {
            let k = index_at(text@, b);
            lemma_offset_monotonic(text@, k, text@.len() as int);
        }
    }
    if index >= total {
        return total;
    }
    let mut i: usize = index;
    while i > 0 && !boundary_at(text, i)
        invariant
            i <= index < byte_len(text@),
            on_boundary(text@, 0),
            forall|b: int| #[trigger] on_boundary(text@, b) && b <= index ==> b <= i,
        decreases i,
    {
        i -= 1;
    }
    i
}

/// Smallest character boundary at or above `index`, or the end of the text.
pub fn ceil_char_boundary(text: &str, index: usize) -> (r: usize)
    ensures
        index >= byte_len(text@) ==> r == byte_len(text@),
        index <= byte_len(text@) ==> index <= r,
        r <= byte_len(text@),
        on_boundary(text@, r as int),
        forall|b: int| #[trigger] on_boundary(text@, b) && index <= b ==> r <= b,
{
    let total: usize = len_bytes(text);
    proof {
        lemma_offset_ends(text@);
        lemma_index_unique(text@, text@.len() as int);
        assert forall|b: int| #[trigger] on_boundary(text@, b) implies b <= byte_len(text@) by {
            let k = index_at(text@, b);
            lemma_offset_monotonic(text@, k, text@.len() as int);
        }
    }
    if index >= total {
        return total;
    }
    let mut i: usize = index;
    while i < total && !boundary_at(text, i)
        invariant
            index <= i <= total,
            total == byte_len(text@),
            on_boundary(text@, total as int),
            forall|b: int| #[trigger] on_boundary(text@, b) && index <= b ==> i <= b,
        decreases total - i,
    {
        i += 1;
    }
    i
}

/// `head` and `tail` are the ends of `s` that a budget of `cap` bytes leaves
/// room for, one byte being kept for a separator: the head is the longest
/// prefix within half of the budget, the tail the longest suffix within what
/// the head did not use.
pub open spec fn is_excerpt(s: Seq<char>, cap: int, head: Seq<char>, tail: Seq<char>) -> bool {
    let budget = if cap > 0 {
        cap - 1
    } else {
        0
    };
    let left = budget - byte_len(head);
    &&& exists|h: int| 0 <= h <= s.len() && head == #[trigger] s.take(h)
    &&& exists|t: int| 0 <= t <= s.len() && tail == #[trigger] s.skip(t)
    &&& byte_len(head) <= budget / 2
    &&& forall|k: int|
        0 <= k <= s.len() && #[trigger] offset(s, k) <= budget / 2 ==> offset(s, k) <= byte_len(
            head,
        )
    &&& byte_len(tail) <= left
    &&& forall|k: int|
        0 <= k <= s.len() && byte_len(s) - #[trigger] offset(s, k) <= left ==> byte_len(s) - offset(
            s,
            k,
        ) <= byte_len(tail)
}

/// The ends of `s` that a budget of `cap` bytes leaves room for.
pub open spec fn excerpt(s: Seq<char>, cap: int) -> (Seq<char>, Seq<char>) {
    choose|p: (Seq<char>, Seq<char>)| #[trigger] is_excerpt(s, cap, p.0, p.1)
}

/// There is only one excerpt.
pub proof fn lemma_excerpt_unique(s: Seq<char>, cap: int, head: Seq<char>, tail: Seq<char>)
    requires
        is_excerpt(s, cap, head, tail),
    ensures
        excerpt(s, cap) == (head, tail),
{
    let (h2, t2) = excerpt(s, cap);
    let pair = (head, tail);
    assert(is_excerpt(s, cap, pair.0, pair.1));
    assert(is_excerpt(s, cap, h2, t2));
    let a = choose|h: int| 0 <= h <= s.len() && head == #[trigger] s.take(h);
    let b = choose|h: int| 0 <= h <= s.len() && h2 == #[trigger] s.take(h);
    assert(offset(s, a) == byte_len(head));
    assert(offset(s, b) == byte_len(h2));
    lemma_index_unique(s, a);
    lemma_index_unique(s, b);
    assert(a == b);
    let c = choose|t: int| 0 <= t <= s.len() && tail == #[trigger] s.skip(t);
    let d = choose|t: int| 0 <= t <= s.len() && t2 == #[trigger] s.skip(t);
    lemma_offset_split(s, c);
    lemma_offset_split(s, d);
    lemma_index_unique(s, c);
    lemma_index_unique(s, d);
    assert(offset(s, c) == offset(s, d));
    assert(c == d);
}

/// `s` where it fits in `cap` bytes, else its excerpt with one newline between
/// the two parts; nothing where not even the newline fits.
pub open spec fn shortened(s: Seq<char>, cap: int) -> Seq<char> {
    if byte_len(s) <= cap {
        s
    } else if cap <= 0 {
        Seq::empty()
    } else {
        excerpt(s, cap).0.push('\n') + excerpt(s, cap).1
    }
}

/// The first character, from the `k`-th on, that starts at byte `b` or behind
/// it.
pub open spec fn char_from(s: Seq<char>, b: int, k: int) -> int
    decreases s.len() - k,
{
    if 0 <= k < s.len() && offset(s, k) < b {
        char_from(s, b, k + 1)
    } else {
        k
    }
}

/// The longest end of `s` that takes at most `cap` bytes.
pub open spec fn last_bytes(s: Seq<char>, cap: int) -> Seq<char> {
    s.skip(char_from(s, byte_len(s) - cap, 0))
}

/// A boundary with none between it and `b` is where the first character from
/// `b` on starts.
proof fn lemma_char_from(s: Seq<char>, b: int, k: int, t: int)
    requires
        0 <= k <= t <= s.len(),
        b <= offset(s, t),
        forall|j: int| 0 <= j <= s.len() && b <= #[trigger] offset(s, j) ==> offset(s, t) <= offset(s, j),
    ensures
        char_from(s, b, k) == t,
    decreases t - k,
{
    if k < t {
        lemma_offset_monotonic(s, k, t);
        lemma_offset_step(s, k);
        lemma_offset_monotonic(s, k + 1, t);
        assert(offset(s, k) < offset(s, t)) by {
            lemma_char_bytes(s[k]);
        }
        assert(offset(s, k) < b);
        lemma_char_from(s, b, k + 1, t);
    }
}

/// The longest end of a text that takes at most `cap` bytes.
pub fn last_bytes_text(text: &str, cap: usize) -> (r: String)
    ensures
        r@ == last_bytes(text@, cap as int),
        byte_len(r@) <= cap || byte_len(text@) <= cap,
{
    let total: usize = len_bytes(text);
    let start: usize = ceil_char_boundary(text, total.saturating_sub(cap));
    let (_, tail) = split_bytes(text, start);
    proof {
        let s = text@;
        let t = index_at(s, start as int);
        let b = total - cap;
        lemma_offset_split(s, t);
        assert forall|j: int| 0 <= j <= s.len() && b <= #[trigger] offset(s, j) implies offset(s, t)
            <= offset(s, j) by {
            lemma_index_unique(s, j);
            assert(on_boundary(s, offset(s, j) as int));
        }
        lemma_char_from(s, b, 0, t);
    }
    tail.to_owned()
}

/// Balanced head and tail of `text` whose bytes, with one for a separator,
/// stay within `cap`. No character is ever cut.
pub fn excerpt_parts(text: &str, cap: usize) -> (r: (String, String))
    ensures
        is_excerpt(text@, cap as int, r.0@, r.1@),
        (r.0@, r.1@) == excerpt(text@, cap as int),
        cap > 0 ==> byte_len(r.0@) + 1 + byte_len(r.1@) <= cap,
{
    let budget: usize = cap.saturating_sub(1);
    let half: usize = budget / 2;
    let head_end: usize = floor_char_boundary(text, half);
    let (head, _) = split_bytes(text, head_end);
    let tail_budget: usize = budget - head_end;
    let total: usize = len_bytes(text);
    let tail_start: usize = ceil_char_boundary(text, total.saturating_sub(tail_budget));
    let (_, tail) = split_bytes(text, tail_start);
    proof {
        let s = text@;
        let h = index_at(s, head_end as int);
        let t = index_at(s, tail_start as int);
        assert(byte_len(head@) == head_end);
        lemma_offset_split(s, t);
        assert(byte_len(tail@) == total - tail_start);
        assert(head@ == s.take(h));
        assert(tail@ == s.skip(t));
        assert forall|k: int| 0 <= k <= s.len() && #[trigger] offset(s, k) <= budget
            / 2 implies offset(s, k) <= byte_len(head@) by {
            lemma_index_unique(s, k);
        }
        assert forall|k: int|
            0 <= k <= s.len() && byte_len(s) - #[trigger] offset(s, k) <= tail_budget implies byte_len(
            s,
        ) - offset(s, k) <= byte_len(tail@) by {
            lemma_index_unique(s, k);
        }
        lemma_excerpt_unique(s, cap as int, head@, tail@);
    }
    (head.to_owned(), tail.to_owned())
}

/// Head and tail of an oversized text around one newline, never longer than
/// `cap` bytes.
pub fn bounded_excerpt(text: &str, cap: usize) -> (r: String)
    ensures
        r@ == shortened(text@, cap as int),
        byte_len(r@) <= cap,
{
    if len_bytes(text) <= cap {
        return text.to_owned();
    }
    if cap == 0 {
        return String::new();
    }
    let (head, tail) = excerpt_parts(text, cap);
    let ghost h = head@;
    let mut out = head;
    out.push('\n');
    out.append(tail.as_str());
    proof {
        assert(is_excerpt(text@, cap as int, h, tail@));
        assert(h.push('\n') =~= h + seq!['\n']);
        lemma_encode_concat(h, seq!['\n']);
        lemma_encode_concat(h.push('\n'), tail@);
        lemma_char_bytes('\n');
    }
    out
}

// ---------------------------------------------------------------------------
// Counting, trimming, splitting
// ---------------------------------------------------------------------------

/// How often `c` occurs in `s`.
pub open spec fn occurrences(s: Seq<char>, c: char) -> nat
    decreases s.len(),
{
    if s.len() == 0 {
        0
    } else {
        occurrences(s.drop_last(), c) + if s.last() == c {
            1nat
        } else {
            0nat
        }
    }
}

/// `n`, or the largest `usize` where `n` is larger.
pub open spec fn clip(n: int) -> int {
    if n > usize::MAX {
        usize::MAX as int
    } else {
        n
    }
}

/// Logical lines of a text: its newlines, plus one for a tail behind the last
/// of them.
pub open spec fn line_total(s: Seq<char>) -> nat {
    occurrences(s, '\n') + if s.len() > 0 && s.last() != '\n' {
        1nat
    } else {
        0nat
    }
}

/// Logical line count of a text. The count stops at the largest `usize`.
pub fn logical_line_count(text: &str) -> (r: usize)
    ensures
        r == clip(line_total(text@) as int),
{
    let chars = chars_of(text);
    let mut count: usize = 0;
    let mut i: usize = 0;
    while i < chars.len()
        invariant
            chars@ == text@,
            i <= chars@.len(),
            count <= i,
            count == occurrences(text@.take(i as int), '\n'),
        decreases chars@.len() - i,
    {
        assert(text@.take(i + 1).drop_last() =~= text@.take(i as int));
        if chars[i] == '\n' {
            count += 1;
        }
        i += 1;
    }
    assert(text@.take(i as int) =~= text@);
    if i > 0 && chars[i - 1] != '\n' {
        count.saturating_add(1)
    } else {
        count
    }
}

/// `s` without its leading white space.
pub open spec fn trim_start(s: Seq<char>) -> Seq<char>
    decreases s.len(),
{
    if s.len() > 0 && white(s[0]) {
        trim_start(s.drop_first())
    } else {
        s
    }
}

/// `s` without its trailing white space.
pub open spec fn trim_end(s: Seq<char>) -> Seq<char>
    decreases s.len(),
{
    if s.len() > 0 && white(s.last()) {
        trim_end(s.drop_last())
    } else {
        s
    }
}

/// `s` without white space at either end.
pub open spec fn trim(s: Seq<char>) -> Seq<char> {
    trim_end(trim_start(s))
}

/// Index of the first character of `v[from..]` that is no white space.
pub fn skip_white(v: &Vec<char>, from: usize) -> (r: usize)
    requires
        from <= v@.len(),
    ensures
        from <= r <= v@.len(),
        v@.skip(r as int) == trim_start(v@.skip(from as int)),
        forall|j: int| from <= j < r ==> white(#[trigger] v@[j]),
        r < v@.len() ==> !white(v@[r as int]),
{
    let mut i: usize = from;
    while i < v.len() && is_white_space(v[i])
        invariant
            from <= i <= v@.len(),
            trim_start(v@.skip(from as int)) == trim_start(v@.skip(i as int)),
            forall|j: int| from <= j < i ==> white(#[trigger] v@[j]),
        decreases v@.len() - i,
    {
        assert(v@.skip(i as int).drop_first() =~= v@.skip(i + 1));
        i += 1;
    }
    i
}

/// End of `v[from..to]` without its trailing white space.
pub fn drop_white(v: &Vec<char>, from: usize, to: usize) -> (r: usize)
    requires
        from <= to <= v@.len(),
    ensures
        from <= r <= to,
        v@.subrange(from as int, r as int) == trim_end(v@.subrange(from as int, to as int)),
        forall|j: int| r <= j < to ==> white(#[trigger] v@[j]),
        r > from ==> !white(v@[r - 1]),
{
    let mut i: usize = to;
    while i > from && is_white_space(v[i - 1])
        invariant
            from <= i <= to <= v@.len(),
            trim_end(v@.subrange(from as int, to as int)) == trim_end(
                v@.subrange(from as int, i as int),
            ),
            forall|j: int| i <= j < to ==> white(#[trigger] v@[j]),
        decreases i,
    {
        assert(v@.subrange(from as int, i as int).drop_last() =~= v@.subrange(
            from as int,
            i - 1,
        ));
        i -= 1;
    }
    i
}

/// The text without white space at either end.
pub fn trim_text(s: &str) -> (r: String)
    ensures
        r@ == trim(s@),
{
    let v = chars_of(s);
    let from: usize = skip_white(&v, 0);
    let to: usize = drop_white(&v, from, v.len());
    assert(v@.skip(0) =~= v@);
    assert(v@.subrange(from as int, v@.len() as int) =~= v@.skip(from as int));
    string_of(&v, from, to)
}

/// The text without trailing white space.
pub fn trim_end_text(s: &str) -> (r: String)
    ensures
        r@ == trim_end(s@),
{
    let v = chars_of(s);
    let to: usize = drop_white(&v, 0, v.len());
    assert(v@.subrange(0, v@.len() as int) =~= v@);
    string_of(&v, 0, to)
}

/// The character sequences of a vector of strings.
pub open spec fn texts(v: Seq<String>) -> Seq<Seq<char>> {
    v.map_values(|s: String| s@)
}

/// Appending a string appends its characters.
pub proof fn lemma_texts_push(v: Seq<String>, s: String)
    ensures
        texts(v.push(s)) == texts(v).push(s@),
{
    assert(texts(v.push(s)) =~= texts(v).push(s@));
}

/// The pieces of `s` between occurrences of `sep`; always one more than there
/// are occurrences.
pub open spec fn split_on(s: Seq<char>, sep: char) -> Seq<Seq<char>>
    decreases s.len(),
{
    if s.len() == 0 {
        seq![Seq::empty()]
    } else {
        let p = split_on(s.drop_last(), sep);
        if s.last() == sep {
            p.push(Seq::empty())
        } else {
            p.drop_last().push(p.last().push(s.last()))
        }
    }
}

/// There is always a last piece.
pub proof fn lemma_split_nonempty(s: Seq<char>, sep: char)
    ensures
        split_on(s, sep).len() == occurrences(s, sep) + 1,
    decreases s.len(),
{
    if s.len() > 0 {
        lemma_split_nonempty(s.drop_last(), sep);
    }
}

/// No piece holds the separator.
pub proof fn lemma_split_free(s: Seq<char>, sep: char)
    ensures
        forall|i: int, j: int|
            0 <= i < split_on(s, sep).len() && 0 <= j < split_on(s, sep)[i].len()
                ==> #[trigger] split_on(s, sep)[i][j] != sep,
    decreases s.len(),
{
    lemma_split_nonempty(s, sep);
    if s.len() > 0 {
        lemma_split_nonempty(s.drop_last(), sep);
        lemma_split_free(s.drop_last(), sep);
    }
}

/// Split a text at every occurrence of a character.
pub fn split_text(s: &str, sep: char) -> (r: Vec<String>)
    ensures
        texts(r@) == split_on(s@, sep),
        r@.len() >= 1,
{
    let v = chars_of(s);
    let mut out: Vec<String> = Vec::new();
    let mut current = String::new();
    let mut i: usize = 0;
    assert(s@.take(0) =~= Seq::<char>::empty());
    assert(texts(out@).push(current@) =~= split_on(s@.take(0), sep));
    while i < v.len()
        invariant
            v@ == s@,
            i <= v@.len(),
            texts(out@).push(current@) == split_on(s@.take(i as int), sep),
        decreases v@.len() - i,
    {
        let ghost before = split_on(s@.take(i as int), sep);
        assert(s@.take(i + 1).drop_last() =~= s@.take(i as int));
        assert(before.drop_last() =~= texts(out@));
        assert(before.last() == current@);
        if v[i] == sep {
            proof {
                lemma_texts_push(out@, current);
            }
            out.push(current);
            current = String::new();
        } else {
            current.push(v[i]);
        }
        assert(texts(out@).push(current@) =~= split_on(s@.take(i + 1), sep));
        i += 1;
    }
    assert(s@.take(i as int) =~= s@);
    proof {
        lemma_texts_push(out@, current);
    }
    out.push(current);
    out
}

/// The pieces of `s`, each with the separator that ends it; the last piece is
/// left out where it is empty.
pub open spec fn split_after(s: Seq<char>, sep: char) -> Seq<Seq<char>>
    decreases s.len(),
{
    if s.len() == 0 {
        Seq::empty()
    } else {
        let p = split_after(s.drop_last(), sep);
        if s.len() == 1 || s[s.len() - 2] == sep {
            p.push(seq![s.last()])
        } else {
            p.drop_last().push(p.last().push(s.last()))
        }
    }
}

/// Split a text after every occurrence of a character.
pub fn split_inclusive_text(s: &str, sep: char) -> (r: Vec<String>)
    ensures
        texts(r@) == split_after(s@, sep),
{
    let v = chars_of(s);
    let mut out: Vec<String> = Vec::new();
    let mut current = String::new();
    let mut i: usize = 0;
    assert(s@.take(0) =~= Seq::<char>::empty());
    while i < v.len()
        invariant
            v@ == s@,
            i <= v@.len(),
            i > 0 && s@[i - 1] != sep ==> current@.len() > 0 && texts(out@).push(current@)
                == split_after(s@.take(i as int), sep),
            i == 0 || s@[i - 1] == sep ==> current@.len() == 0 && texts(out@) == split_after(
                s@.take(i as int),
                sep,
            ),
        decreases v@.len() - i,
    {
        let ghost t = s@.take(i + 1);
        assert(t.drop_last() =~= s@.take(i as int));
        let ghost before = split_after(s@.take(i as int), sep);
        proof {
            if i > 0 && s@[i - 1] != sep {
                assert(before.drop_last() =~= texts(out@));
                assert(before.last() == current@);
            }
        }
        current.push(v[i]);
        assert(current@ =~= if i == 0 || s@[i - 1] == sep {
            seq![t.last()]
        } else {
            before.last().push(t.last())
        });
        assert(texts(out@).push(current@) == split_after(t, sep));
        if v[i] == sep {
            proof {
                lemma_texts_push(out@, current);
            }
            out.push(current);
            current = String::new();
        }
        i += 1;
    }
    assert(s@.take(i as int) =~= s@);
    if !current.as_str().is_empty() {
        proof {
            lemma_texts_push(out@, current);
        }
        out.push(current);
    }
    out
}

/// `s` without one trailing carriage return.
pub open spec fn without_return(s: Seq<char>) -> Seq<char> {
    if s.len() > 0 && s.last() == '\r' {
        s.drop_last()
    } else {
        s
    }
}

/// The lines of a text: the pieces between newlines, a carriage return before
/// a newline left out, and no last line where the text ends in a newline.
pub open spec fn lines_of(s: Seq<char>) -> Seq<Seq<char>> {
    let p = split_on(s, '\n');
    let ended = p.drop_last().map_values(|l: Seq<char>| without_return(l));
    if p.last().len() == 0 {
        ended
    } else {
        ended.push(p.last())
    }
}

/// A text without the separator is its only piece.
pub proof fn lemma_split_whole(s: Seq<char>, sep: char)
    requires
        forall|j: int| 0 <= j < s.len() ==> #[trigger] s[j] != sep,
    ensures
        split_on(s, sep) == seq![s],
    decreases s.len(),
{
    if s.len() > 0 {
        lemma_split_whole(s.drop_last(), sep);
        assert(s.drop_last().push(s.last()) =~= s);
        assert(split_on(s, sep) =~= seq![s]);
    } else {
        assert(s =~= Seq::<char>::empty());
    }
}

/// No line holds a newline.
pub proof fn lemma_lines_free(s: Seq<char>)
    ensures
        forall|i: int, j: int|
            0 <= i < lines_of(s).len() && 0 <= j < lines_of(s)[i].len()
                ==> #[trigger] lines_of(s)[i][j] != '\n',
{
    let p = split_on(s, '\n');
    lemma_split_nonempty(s, '\n');
    lemma_split_free(s, '\n');
    assert forall|i: int, j: int|
        0 <= i < lines_of(s).len() && 0 <= j < lines_of(s)[i].len() implies #[trigger] lines_of(
        s,
    )[i][j] != '\n' by {
        assert(lines_of(s)[i][j] == p[i][j]);
    }
}

/// The lines of a text.
pub fn lines_text(s: &str) -> (r: Vec<String>)
    ensures
        texts(r@) == lines_of(s@),
{
    let parts = split_text(s, '\n');
    let ghost p = split_on(s@, '\n');
    let ghost ended = p.drop_last().map_values(|l: Seq<char>| without_return(l));
    let mut out: Vec<String> = Vec::new();
    let mut i: usize = 0;
    while i < parts.len() - 1
        invariant
            parts@.len() >= 1,
            i < parts@.len(),
            texts(parts@) == p,
            p == split_on(s@, '\n'),
            ended == p.drop_last().map_values(|l: Seq<char>| without_return(l)),
            texts(out@) == ended.take(i as int),
        decreases parts@.len() - i,
    {
        let v = chars_of(parts[i].as_str());
        assert(texts(parts@)[i as int] == v@);
        let n: usize = v.len();
        let to: usize = if n > 0 && v[n - 1] == '\r' {
            n - 1
        } else {
            n
        };
        let line = string_of(&v, 0, to);
        assert(line@ =~= without_return(p[i as int]));
        proof {
            lemma_texts_push(out@, line);
        }
        out.push(line);
        assert(ended.take(i + 1) =~= ended.take(i as int).push(ended[i as int]));
        i += 1;
    }
    assert(ended.take(i as int) =~= ended);
    assert(texts(parts@)[i as int] == parts@[i as int]@);
    if !parts[i].as_str().is_empty() {
        proof {
            lemma_texts_push(out@, parts@[i as int]);
        }
        out.push(parts[i].clone());
    }
    out
}

/// The words of a text: its longest runs without white space.
pub open spec fn words(s: Seq<char>) -> Seq<Seq<char>>
    decreases s.len(),
{
    if s.len() == 0 {
        Seq::empty()
    } else {
        let w = words(s.drop_last());
        if white(s.last()) {
            w
        } else if s.len() == 1 || white(s[s.len() - 2]) {
            w.push(seq![s.last()])
        } else {
            w.drop_last().push(w.last().push(s.last()))
        }
    }
}

/// The words of a text, in order.
pub fn words_text(s: &str) -> (r: Vec<String>)
    ensures
        texts(r@) == words(s@),
{
    let v = chars_of(s);
    let mut out: Vec<String> = Vec::new();
    let mut current = String::new();
    let mut i: usize = 0;
    assert(s@.take(0) =~= Seq::<char>::empty());
    while i < v.len()
        invariant
            v@ == s@,
            i <= v@.len(),
            i > 0 && !white(s@[i - 1]) ==> current@.len() > 0 && texts(out@).push(current@)
                == words(s@.take(i as int)),
            i == 0 || white(s@[i - 1]) ==> current@.len() == 0 && texts(out@) == words(
                s@.take(i as int),
            ),
        decreases v@.len() - i,
    {
        let ghost t = s@.take(i + 1);
        assert(t.drop_last() =~= s@.take(i as int));
        let ghost before = words(s@.take(i as int));
        proof {
            if i > 0 && !white(s@[i - 1]) {
                assert(before.drop_last() =~= texts(out@));
                assert(before.last() == current@);
            }
        }
        if is_white_space(v[i]) {
            if !current.as_str().is_empty() {
                proof {
                    lemma_texts_push(out@, current);
                }
                out.push(current);
                current = String::new();
            }
        } else {
            current.push(v[i]);
            assert(current@ =~= if i == 0 || white(s@[i - 1]) {
                seq![t.last()]
            } else {
                before.last().push(t.last())
            });
            assert(texts(out@).push(current@) == words(t));
        }
        i += 1;
    }
    assert(s@.take(i as int) =~= s@);
    if !current.as_str().is_empty() {
        proof {
            lemma_texts_push(out@, current);
        }
        out.push(current);
    }
    out
}

/// The pieces one after the other with `sep` between them.
pub open spec fn joined(parts: Seq<Seq<char>>, sep: Seq<char>) -> Seq<char>
    decreases parts.len(),
{
    if parts.len() == 0 {
        Seq::empty()
    } else if parts.len() == 1 {
        parts[0]
    } else {
        joined(parts.drop_last(), sep) + sep + parts.last()
    }
}

/// Join `parts[from..to]` with a separator.
pub fn join_range(parts: &Vec<String>, from: usize, to: usize, sep: &str) -> (r: String)
    requires
        from <= to <= parts@.len(),
    ensures
        r@ == joined(texts(parts@).subrange(from as int, to as int), sep@),
{
    let mut out = String::new();
    let mut i: usize = from;
    assert(texts(parts@).subrange(from as int, from as int) =~= Seq::<Seq<char>>::empty());
    while i < to
        invariant
            from <= i <= to <= parts@.len(),
            out@ == joined(texts(parts@).subrange(from as int, i as int), sep@),
        decreases to - i,
    {
        let ghost t = texts(parts@).subrange(from as int, i + 1);
        assert(t.drop_last() =~= texts(parts@).subrange(from as int, i as int));
        assert(t.last() == parts@[i as int]@);
        if i > from {
            out.append(sep);
        }
        out.append(parts[i].as_str());
        if i == from {
            assert(out@ =~= t[0]);
        }
        i += 1;
    }
    out
}

/// Join all parts with a separator.
pub fn join_text(parts: &Vec<String>, sep: &str) -> (r: String)
    ensures
        r@ == joined(texts(parts@), sep@),
{
    assert(texts(parts@).subrange(0, parts@.len() as int) =~= texts(parts@));
    join_range(parts, 0, parts.len(), sep)
}

/// Decimal digits of a number.
pub open spec fn decimal(n: nat) -> Seq<char>
    decreases n,
{
    if n < 10 {
        seq![digit(n)]
    } else {
        decimal(n / 10).push(digit(n % 10))
    }
}

/// The character of a digit below ten.
pub open spec fn digit(d: nat) -> char {
    (48 + d) as char
}

/// A number in decimal digits.
pub fn decimal_text(n: u128) -> (r: String)
    ensures
        r@ == decimal(n as nat),
    decreases n,
{
    let d: u8 = 48u8 + (n % 10) as u8;
    let c: char = d as char;
    assert(c == digit((n % 10) as nat));
    let mut out = if n < 10 {
        String::new()
    } else {
        decimal_text(n / 10)
    };
    out.push(c);
    if n < 10 {
        assert(out@ =~= seq![digit(n as nat)]);
    }
    out
}

/// A count in decimal digits.
pub fn count_text(n: usize) -> (r: String)
    ensures
        r@ == decimal(n as nat),
{
    decimal_text(n as u128)
}

/// Two numbers with the same digits are the same.
pub proof fn lemma_decimal_injective(a: nat, b: nat)
    requires
        decimal(a) == decimal(b),
    ensures
        a == b,
    decreases a,
{
    assert(digit(a % 10) == decimal(a).last());
    assert(digit(b % 10) == decimal(b).last());
    assert((48 + a % 10) as u32 == digit(a % 10) as u32);
    assert((48 + b % 10) as u32 == digit(b % 10) as u32);
    if a < 10 || b < 10 {
        lemma_decimal_nonempty(a / 10);
        lemma_decimal_nonempty(b / 10);
        assert(decimal(a).len() == decimal(b).len());
    } else {
        assert(decimal(a).drop_last() =~= decimal(a / 10));
        assert(decimal(b).drop_last() =~= decimal(b / 10));
        lemma_decimal_injective(a / 10, b / 10);
    }
}

/// A number has a digit.
pub proof fn lemma_decimal_nonempty(n: nat)
    ensures
        decimal(n).len() > 0,
    decreases n,
{
    if n >= 10 {
        lemma_decimal_nonempty(n / 10);
    }
}

/// Two texts, one behind the other.
pub fn text2(a: &str, b: &str) -> (r: String)
    ensures
        r@ == a@ + b@,
{
    let mut out = a.to_owned();
    out.append(b);
    out
}

/// Three texts, one behind the other.
pub fn text3(a: &str, b: &str, c: &str) -> (r: String)
    ensures
        r@ == a@ + b@ + c@,
{
    let mut out = a.to_owned();
    out.append(b);
    out.append(c);
    out
}

/// A text with one character in place of another.
pub fn replace_char(s: &str, from: char, to: char) -> (r: String)
    ensures
        r@ == replaced(s@, from, to),
{
    let v = chars_of(s);
    let mut out = String::new();
    let mut i: usize = 0;
    assert(replaced(s@, from, to).take(0) =~= Seq::<char>::empty());
    while i < v.len()
        invariant
            v@ == s@,
            i <= v@.len(),
            out@ == replaced(s@, from, to).take(i as int),
        decreases v@.len() - i,
    {
        let c: char = if v[i] == from {
            to
        } else {
            v[i]
        };
        assert(replaced(s@, from, to).take(i + 1) =~= replaced(s@, from, to).take(i as int).push(c));
        out.push(c);
        i += 1;
    }
    assert(replaced(s@, from, to).take(i as int) =~= replaced(s@, from, to));
    out
}

/// `s` with `to` wherever it has `from`.
pub open spec fn replaced(s: Seq<char>, from: char, to: char) -> Seq<char> {
    s.map_values(
        |c: char|
            if c == from {
                to
            } else {
                c
            },
    )
}

/// A signed number in decimal, with a minus where it is negative.
pub open spec fn signed_decimal(n: int) -> Seq<char> {
    if n < 0 {
        seq!['-'] + decimal((-n) as nat)
    } else {
        decimal(n as nat)
    }
}

/// A signed number in decimal digits.
pub fn signed_text(n: i64) -> (r: String)
    ensures
        r@ == signed_decimal(n as int),
{
    if n < 0 {
        let mut out = String::new();
        out.push('-');
        let m: u128 = (-(n as i128)) as u128;
        out.append(decimal_text(m).as_str());
        assert(out@ =~= seq!['-'] + decimal((-n) as nat));
        out
    } else {
        decimal_text(n as u128)
    }
}

/// Whether `s` starts with `prefix`.
pub open spec fn begins(s: Seq<char>, prefix: Seq<char>) -> bool {
    prefix.len() <= s.len() && s.take(prefix.len() as int) == prefix
}

/// Whether a text starts with a prefix.
pub fn starts_with_text(s: &str, prefix: &str) -> (r: bool)
    ensures
        r == begins(s@, prefix@),
{
    let v = chars_of(s);
    let p = chars_of(prefix);
    if p.len() > v.len() {
        return false;
    }
    let mut i: usize = 0;
    while i < p.len()
        invariant
            v@ == s@,
            p@ == prefix@,
            i <= p@.len() <= v@.len(),
            forall|j: int| 0 <= j < i ==> v@[j] == p@[j],
        decreases p@.len() - i,
    {
        if v[i] != p[i] {
            assert(s@.take(p@.len() as int)[i as int] != prefix@[i as int]);
            return false;
        }
        i += 1;
    }
    assert(s@.take(prefix@.len() as int) =~= prefix@);
    true
}

/// `s` with every capital ASCII letter made small.
pub open spec fn ascii_lower(s: Seq<char>) -> Seq<char> {
    s.map_values(|c: char| ascii_lower_char(c))
}

/// A capital ASCII letter made small, any other character as it is.
pub open spec fn ascii_lower_char(c: char) -> char {
    if 0x41 <= c as u32 <= 0x5a {
        (c as u32 + 32) as char
    } else {
        c
    }
}

/// A text with its capital ASCII letters made small.
pub fn ascii_lower_text(s: &str) -> (r: String)
    ensures
        r@ == ascii_lower(s@),
{
    let v = chars_of(s);
    let mut out = String::new();
    let mut i: usize = 0;
    while i < v.len()
        invariant
            v@ == s@,
            i <= v@.len(),
            out@ == ascii_lower(s@).take(i as int),
        decreases v@.len() - i,
    {
        let c: char = v[i];
        let n: u32 = c as u32;
        let lower: char = if 0x41 <= n && n <= 0x5a {
            let b: u8 = n as u8;
            (b + 32) as char
        } else {
            c
        };
        assert(ascii_lower(s@).take(i + 1) =~= ascii_lower(s@).take(i as int).push(lower));
        out.push(lower);
        i += 1;
    }
    assert(ascii_lower(s@).take(i as int) =~= ascii_lower(s@));
    out
}

// ---------------------------------------------------------------------------
// Cleaning text that comes from outside
// ---------------------------------------------------------------------------

/// One-line form of a title and whether a line break is still to be shown as
/// a space. Line breaks fold into one space, tabs become spaces, characters
/// that are unsafe in a terminal are dropped.
pub open spec fn title_fold(s: Seq<char>) -> (Seq<char>, bool)
    decreases s.len(),
{
    if s.len() == 0 {
        (Seq::empty(), false)
    } else {
        let (out, pending) = title_fold(s.drop_last());
        let c = s.last();
        if c == '\n' || c == '\r' {
            (out, true)
        } else if hostile(c) && c != '\t' {
            (out, pending)
        } else {
            let shown = if c == '\t' {
                ' '
            } else {
                c
            };
            if pending && out.len() > 0 && out.last() != ' ' {
                (out.push(' ').push(shown), false)
            } else {
                (out.push(shown), false)
            }
        }
    }
}

/// The one-line form of a title, without trailing white space.
pub open spec fn clean_title(s: Seq<char>) -> Seq<char> {
    trim_end(title_fold(s).0)
}

/// No character of `s` is unsafe in a terminal.
pub open spec fn safe(s: Seq<char>) -> bool {
    forall|i: int| 0 <= i < s.len() ==> !hostile(#[trigger] s[i])
}

/// A title on one line, without characters that are unsafe in a terminal.
pub fn sanitize_title(title: &str) -> (r: String)
    ensures
        r@ == clean_title(title@),
        safe(r@),
{
    let v = chars_of(title);
    let mut out: Vec<char> = Vec::new();
    let mut pending: bool = false;
    let mut i: usize = 0;
    assert(title@.take(0) =~= Seq::<char>::empty());
    while i < v.len()
        invariant
            v@ == title@,
            i <= v@.len(),
            (out@, pending) == title_fold(title@.take(i as int)),
            safe(out@),
        decreases v@.len() - i,
    {
        assert(title@.take(i + 1).drop_last() =~= title@.take(i as int));
        let c: char = v[i];
        if c == '\n' || c == '\r' {
            pending = true;
        } else if is_unsafe_terminal_char(c) && c != '\t' {
        } else {
            let shown: char = if c == '\t' {
                ' '
            } else {
                c
            };
            let n: usize = out.len();
            if pending && n > 0 && out[n - 1] != ' ' {
                out.push(' ');
            }
            pending = false;
            out.push(shown);
        }
        i += 1;
    }
    assert(title@.take(i as int) =~= title@);
    let n: usize = out.len();
    let to: usize = drop_white(&out, 0, n);
    assert(out@.subrange(0, n as int) =~= out@);
    let r = string_of(&out, 0, to);
    assert(forall|j: int| 0 <= j < r@.len() ==> r@[j] == out@[j]);
    r
}

/// Dashed form of an id and whether a dash is still to be written: runs of
/// white space and unsafe characters fold into one dash, none of them at the
/// start.
pub open spec fn id_fold(s: Seq<char>) -> (Seq<char>, bool)
    decreases s.len(),
{
    if s.len() == 0 {
        (Seq::empty(), false)
    } else {
        let (out, pending) = id_fold(s.drop_last());
        let c = s.last();
        if hostile(c) || white(c) {
            (out, true)
        } else if pending && out.len() > 0 && out.last() != '-' {
            (out.push('-').push(c), false)
        } else {
            (out.push(c), false)
        }
    }
}

/// `s` without trailing dashes.
pub open spec fn without_dashes(s: Seq<char>) -> Seq<char>
    decreases s.len(),
{
    if s.len() > 0 && s.last() == '-' {
        without_dashes(s.drop_last())
    } else {
        s
    }
}

/// Most characters that a shown id or title keeps.
pub const ID_LIMIT: usize = 120;

/// Characters kept of a text that is over the limit, before its dots.
pub const ID_KEPT: usize = 117;

/// `s`, cut to `ID_KEPT` characters and three dots where it is longer than
/// `ID_LIMIT`.
pub open spec fn capped(s: Seq<char>) -> Seq<char> {
    if s.len() > ID_LIMIT {
        s.take(ID_KEPT as int) + seq!['.', '.', '.']
    } else {
        s
    }
}

/// The shown form of an activity id.
pub open spec fn clean_id(s: Seq<char>) -> Seq<char> {
    let out = without_dashes(id_fold(s).0);
    if out.len() == 0 {
        "activity"@
    } else {
        capped(out)
    }
}

/// Cut a text that is over the limit and end it in three dots.
pub fn cap_text(s: &str) -> (r: String)
    ensures
        r@ == capped(s@),
        r@.len() <= ID_LIMIT,
{
    let v = chars_of(s);
    if v.len() > ID_LIMIT {
        let mut out = string_of(&v, 0, ID_KEPT);
        out.push('.');
        out.push('.');
        out.push('.');
        assert(out@ =~= s@.take(ID_KEPT as int) + seq!['.', '.', '.']);
        out
    } else {
        s.to_owned()
    }
}

/// The shown form of an id: safe characters only, dashes for gaps, capped in
/// length and never empty.
pub fn sanitize_id(raw: &str) -> (r: String)
    ensures
        r@ == clean_id(raw@),
        safe(r@),
        0 < r@.len() <= ID_LIMIT,
{
    let v = chars_of(raw);
    let mut out: Vec<char> = Vec::new();
    let mut pending: bool = false;
    let mut i: usize = 0;
    assert(raw@.take(0) =~= Seq::<char>::empty());
    while i < v.len()
        invariant
            v@ == raw@,
            i <= v@.len(),
            (out@, pending) == id_fold(raw@.take(i as int)),
            safe(out@),
        decreases v@.len() - i,
    {
        assert(raw@.take(i + 1).drop_last() =~= raw@.take(i as int));
        let c: char = v[i];
        if is_unsafe_terminal_char(c) || is_white_space(c) {
            pending = true;
        } else {
            let n: usize = out.len();
            if pending && n > 0 && out[n - 1] != '-' {
                out.push('-');
            }
            pending = false;
            out.push(c);
        }
        i += 1;
    }
    assert(raw@.take(i as int) =~= raw@);
    let mut end: usize = out.len();
    assert(out@.take(end as int) =~= out@);
    while end > 0 && out[end - 1] == '-'
        invariant
            end <= out@.len(),
            without_dashes(out@) == without_dashes(out@.take(end as int)),
        decreases end,
    {
        assert(out@.take(end as int).drop_last() =~= out@.take(end - 1));
        end -= 1;
    }
    assert(without_dashes(out@) == out@.take(end as int));
    if end == 0 {
        proof {
            reveal_strlit("activity");
        }
        return "activity".to_owned();
    }
    let kept = string_of(&out, 0, end);
    assert(kept@ =~= out@.take(end as int));
    let r = cap_text(kept.as_str());
    assert(safe(r@));
    r
}

/// What a text shows as in terminal cells: tabs as one space, line breaks as
/// they are or as one space, unsafe characters left out.
pub open spec fn clean_text(s: Seq<char>, multiline: bool) -> Seq<char>
    decreases s.len(),
{
    if s.len() == 0 {
        Seq::empty()
    } else {
        let out = clean_text(s.drop_last(), multiline);
        let c = s.last();
        if c == '\n' {
            out.push(
                if multiline {
                    '\n'
                } else {
                    ' '
                },
            )
        } else if c == '\t' {
            out.push(' ')
        } else if hostile(c) {
            out
        } else {
            out.push(c)
        }
    }
}

/// A text without the characters that are unsafe in a terminal.
pub fn sanitize_terminal_text(text: &str, multiline: bool) -> (r: String)
    ensures
        r@ == clean_text(text@, multiline),
        !multiline ==> safe(r@),
{
    let v = chars_of(text);
    let mut out = String::new();
    let mut i: usize = 0;
    assert(text@.take(0) =~= Seq::<char>::empty());
    while i < v.len()
        invariant
            v@ == text@,
            i <= v@.len(),
            out@ == clean_text(text@.take(i as int), multiline),
            !multiline ==> safe(out@),
        decreases v@.len() - i,
    {
        assert(text@.take(i + 1).drop_last() =~= text@.take(i as int));
        let c: char = v[i];
        if c == '\n' {
            out.push(
                if multiline {
                    '\n'
                } else {
                    ' '
                },
            );
        } else if c == '\t' {
            out.push(' ');
        } else if !is_unsafe_terminal_char(c) {
            out.push(c);
        }
        i += 1;
    }
    assert(text@.take(i as int) =~= text@);
    out
}

/// A text on one line with single spaces between its words.
pub fn one_line_text(s: &str) -> (r: String)
    ensures
        r@ == joined(words(s@), seq![' ']),
{
    let w = words_text(s);
    proof {
        reveal_strlit(" ");
        assert(" "@ =~= seq![' ']);
    }
    join_text(&w, " ")
}

} // verus!
