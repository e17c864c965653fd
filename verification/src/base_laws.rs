//! What holds of the plain functions on texts, numbers and colors that
//! everything else is said in.
use crate::style;
use crate::style::{Color, Style};
use crate::text;
use vstd::prelude::*;

verus! {

// ---------------------------------------------------------------------------
// White space
// ---------------------------------------------------------------------------

/// What is cut off a text at its end is white space, and all of it.
pub proof fn law_ends_are_trimmed(s: Seq<char>)
    ensures
        ({
            let t = text::trim_end(s);
            &&& t.len() <= s.len() && t == s.take(t.len() as int)
            &&& forall|i: int| t.len() <= i < s.len() ==> text::white(#[trigger] s[i])
            &&& t.len() > 0 ==> !text::white(t.last())
        }),
    decreases s.len(),
{
    let t = text::trim_end(s);
    if s.len() > 0 && text::white(s.last()) {
        law_ends_are_trimmed(s.drop_last());
        assert(s.take(t.len() as int) =~= s.drop_last().take(t.len() as int));
        assert forall|i: int| t.len() <= i < s.len() implies text::white(#[trigger] s[i]) by {
            if i < s.len() - 1 {
                assert(s.drop_last()[i] == s[i]);
            }
        }
    } else {
        assert(s.take(s.len() as int) =~= s);
    }
}

/// What is cut off a text at its start is white space, and all of it.
pub proof fn law_starts_are_trimmed(s: Seq<char>)
    ensures
        ({
            let t = text::trim_start(s);
            let n = s.len() - t.len();
            &&& 0 <= n && t == s.skip(n)
            &&& forall|i: int| 0 <= i < n ==> text::white(#[trigger] s[i])
            &&& t.len() > 0 ==> !text::white(t[0])
        }),
    decreases s.len(),
{
    if s.len() > 0 && text::white(s[0]) {
        let u = s.drop_first();
        law_starts_are_trimmed(u);
        let t = text::trim_start(s);
        let n = s.len() - t.len();
        assert(s.skip(n) =~= u.skip(n - 1));
        assert forall|i: int| 0 <= i < n implies text::white(#[trigger] s[i]) by {
            if i > 0 {
                assert(u[i - 1] == s[i]);
            }
        }
    } else {
        assert(s.skip(0) =~= s);
    }
}

/// A trimmed text is what is left between the white space at both ends.
pub proof fn law_texts_are_trimmed(s: Seq<char>)
    ensures
        ({
            let t = text::trim(s);
            &&& t.len() > 0 ==> !text::white(t[0]) && !text::white(t.last())
            &&& exists|i: int|
                0 <= i && i + t.len() <= s.len() && #[trigger] s.subrange(i, i + t.len()) == t && (
                forall|j: int| 0 <= j < i || i + t.len() <= j < s.len() ==> text::white(#[trigger] s[j]))
        }),
{
    let u = text::trim_start(s);
    let t = text::trim(s);
    law_starts_are_trimmed(s);
    law_ends_are_trimmed(u);
    let n = s.len() - u.len();
    assert(s.subrange(n, n + t.len()) =~= t);
    assert forall|j: int| 0 <= j < n || n + t.len() <= j < s.len() implies text::white(
        #[trigger] s[j],
    ) by {
        if j >= n {
            assert(u[j - n] == s[j]);
        }
    }
    if t.len() > 0 {
        assert(t[0] == u[0]);
    }
}

/// The characters of a text that are no white space.
pub open spec fn without_white(s: Seq<char>) -> Seq<char>
    decreases s.len(),
{
    if s.len() == 0 {
        Seq::empty()
    } else if text::white(s.last()) {
        without_white(s.drop_last())
    } else {
        without_white(s.drop_last()).push(s.last())
    }
}

/// The words of a text hold all that is no white space, in order, and nothing
/// else; none of them is empty.
pub proof fn law_words_hold_the_text(s: Seq<char>)
    ensures
        text::words(s).flatten() == without_white(s),
        forall|i: int| 0 <= i < text::words(s).len() ==> (#[trigger] text::words(s)[i]).len() > 0,
        s.len() > 0 && !text::white(s.last()) ==> text::words(s).len() > 0,
    decreases s.len(),
{
    let w = text::words(s);
    w.lemma_flatten_and_flatten_alt_are_equivalent();
    if s.len() > 0 {
        let front = s.drop_last();
        let v = text::words(front);
        law_words_hold_the_text(front);
        v.lemma_flatten_and_flatten_alt_are_equivalent();
        if !text::white(s.last()) {
            if s.len() == 1 || text::white(s[s.len() - 2]) {
                assert(w.drop_last() =~= v);
                assert(w.flatten_alt() =~= v.flatten_alt() + seq![s.last()]);
            } else {
                assert(!text::white(front.last()));
                assert(w.drop_last() =~= v.drop_last());
                assert(w.flatten_alt() =~= v.flatten_alt().push(s.last()));
            }
        }
    } else {
        assert(w.flatten_alt() =~= Seq::<char>::empty());
    }
}

/// A word is as long as it can be: where the next letter follows at once it is
/// part of the same word, and behind white space it starts another.
pub proof fn law_words_are_whole(s: Seq<char>, c: char)
    requires
        !text::white(c),
    ensures
        s.len() > 0 && !text::white(s.last()) ==> text::words(s.push(c)).len() == text::words(s).len()
            && text::words(s.push(c)).last() == text::words(s).last().push(c),
        s.len() == 0 || text::white(s.last()) ==> text::words(s.push(c)) == text::words(s).push(
            seq![c],
        ),
{
    assert(s.push(c).drop_last() =~= s);
    law_words_hold_the_text(s);
}

// ---------------------------------------------------------------------------
// Lines
// ---------------------------------------------------------------------------

proof fn lemma_joined_push(parts: Seq<Seq<char>>, sep: Seq<char>, part: Seq<char>)
    requires
        parts.len() > 0,
    ensures
        text::joined(parts.push(part), sep) == text::joined(parts, sep) + sep + part,
{
    assert(parts.push(part).drop_last() =~= parts);
}

/// The pieces of a text joined again are the text.
pub proof fn law_pieces_join_to_the_text(s: Seq<char>, sep: char)
    ensures
        text::joined(text::split_on(s, sep), seq![sep]) == s,
        text::split_on(s, sep).len() > 0,
    decreases s.len(),
{
    let p = text::split_on(s, sep);
    if s.len() > 0 {
        let q = text::split_on(s.drop_last(), sep);
        law_pieces_join_to_the_text(s.drop_last(), sep);
        if s.last() == sep {
            lemma_joined_push(q, seq![sep], Seq::empty());
            assert(text::joined(p, seq![sep]) =~= s);
        } else {
            let front = q.drop_last();
            let last = q.last();
            assert(q =~= front.push(last));
            if front.len() > 0 {
                lemma_joined_push(front, seq![sep], last);
                lemma_joined_push(front, seq![sep], last.push(s.last()));
                assert(p =~= front.push(last.push(s.last())));
                assert(s =~= s.drop_last().push(s.last()));
                assert(text::joined(p, seq![sep]) =~= s);
            } else {
                assert(q =~= seq![last]);
                assert(p =~= seq![last.push(s.last())]);
                assert(text::joined(q, seq![sep]) == last);
                assert(last.push(s.last()) =~= s);
                assert(text::joined(p, seq![sep]) =~= s);
            }
        }
    } else {
        assert(text::joined(p, seq![sep]) =~= s);
    }
}

/// A text has as many lines as are counted.
pub proof fn law_lines_are_counted(s: Seq<char>)
    ensures
        text::lines_of(s).len() == text::line_total(s),
{
    text::lemma_split_nonempty(s, '\n');
    lemma_last_piece(s, '\n');
}

proof fn lemma_last_piece(s: Seq<char>, sep: char)
    ensures
        text::split_on(s, sep).len() > 0,
        text::split_on(s, sep).last().len() == 0 <==> s.len() == 0 || s.last() == sep,
    decreases s.len(),
{
    if s.len() > 0 {
        lemma_last_piece(s.drop_last(), sep);
    }
}

// ---------------------------------------------------------------------------
// Numbers
// ---------------------------------------------------------------------------

/// The number that a sequence of digits stands for.
pub open spec fn number_of(s: Seq<char>) -> int
    decreases s.len(),
{
    if s.len() == 0 {
        0
    } else {
        10 * number_of(s.drop_last()) + (s.last() as int - '0' as int)
    }
}

/// The decimal digits of a number stand for that number, and have no zero in
/// front.
pub proof fn law_digits_stand_for_the_number(n: nat)
    ensures
        number_of(text::decimal(n)) == n,
        text::decimal(n).len() > 0,
        text::decimal(n)[0] == '0' ==> n == 0,
        forall|i: int|
            0 <= i < text::decimal(n).len() ==> '0' <= #[trigger] text::decimal(n)[i] <= '9',
    decreases n,
{
    let d = text::decimal(n);
    if n < 10 {
        assert(d.drop_last() =~= Seq::<char>::empty());
        assert(number_of(d.drop_last()) == 0);
    } else {
        law_digits_stand_for_the_number(n / 10);
        assert(d.drop_last() =~= text::decimal(n / 10));
    }
}

/// Different numbers are shown differently.
pub proof fn law_numbers_are_told_apart(a: int, b: int)
    ensures
        text::signed_decimal(a) == text::signed_decimal(b) ==> a == b,
        a < 0 ==> text::signed_decimal(a)[0] == '-' && number_of(text::signed_decimal(a).skip(1))
            == -a,
        a >= 0 ==> number_of(text::signed_decimal(a)) == a,
{
    lemma_signed(a);
    lemma_signed(b);
}

proof fn lemma_signed(a: int)
    ensures
        text::signed_decimal(a).len() > 0,
        a < 0 ==> text::signed_decimal(a)[0] == '-' && number_of(text::signed_decimal(a).skip(1))
            == -a,
        a >= 0 ==> number_of(text::signed_decimal(a)) == a && text::signed_decimal(a)[0] != '-',
{
    if a < 0 {
        law_digits_stand_for_the_number((-a) as nat);
        assert(text::signed_decimal(a).skip(1) =~= text::decimal((-a) as nat));
    } else {
        law_digits_stand_for_the_number(a as nat);
        assert('0' <= text::decimal(a as nat)[0]);
    }
}

// ---------------------------------------------------------------------------
// Letters
// ---------------------------------------------------------------------------

/// A text in small letters has as many characters; only capitals change, and
/// doing it again changes nothing.
pub proof fn law_small_letters(s: Seq<char>, i: int, c: char)
    requires
        0 <= i < s.len(),
        s[i] == c,
    ensures
        text::ascii_lower(s).len() == s.len(),
        'A' <= c <= 'Z' ==> text::ascii_lower(s)[i] as int == c as int + ('a' as int - 'A' as int),
        !('A' <= c <= 'Z') ==> text::ascii_lower(s)[i] == c,
        text::ascii_lower(text::ascii_lower(s))[i] == text::ascii_lower(s)[i],
{
    let t = text::ascii_lower(s);
    assert(t[i] == text::ascii_lower_char(c));
    assert(text::ascii_lower(t)[i] == text::ascii_lower_char(text::ascii_lower_char(c)));
}

/// An id or a title that is too long is cut, and ends in three dots; any other
/// stays.
pub proof fn law_long_texts_are_capped(s: Seq<char>)
    ensures
        s.len() <= 120 ==> text::capped(s) == s,
        s.len() > 120 ==> text::capped(s).len() == 120 && text::capped(s).take(117) == s.take(117)
            && text::capped(s).skip(117) == seq!['.', '.', '.'],
{
    if s.len() > 120 {
        assert(text::capped(s).take(117) =~= s.take(117));
        assert(text::capped(s).skip(117) =~= seq!['.', '.', '.']);
    }
}

// ---------------------------------------------------------------------------
// Colors
// ---------------------------------------------------------------------------

/// Six hexadecimal digits behind a number sign are three channels of two digits
/// each: red, green and blue.
pub proof fn law_hex_colors(s: Seq<char>)
    requires
        s.len() == 7,
        s[0] == '#',
        forall|i: int| 1 <= i < 7 ==> style::hex_digit(#[trigger] s[i]) is Some,
    ensures
        style::color_of(s).r == 16 * style::hex_digit(s[1])->0 + style::hex_digit(s[2])->0,
        style::color_of(s).g == 16 * style::hex_digit(s[3])->0 + style::hex_digit(s[4])->0,
        style::color_of(s).b == 16 * style::hex_digit(s[5])->0 + style::hex_digit(s[6])->0,
{
    let x = 16 * style::hex_digit(s[1])->0 + style::hex_digit(s[2])->0;
    let y = 16 * style::hex_digit(s[3])->0 + style::hex_digit(s[4])->0;
    let z = 16 * style::hex_digit(s[5])->0 + style::hex_digit(s[6])->0;
    lemma_hex(s[1]);
    lemma_hex(s[2]);
    lemma_hex(s[3]);
    lemma_hex(s[4]);
    lemma_hex(s[5]);
    lemma_hex(s[6]);
    lemma_hex_number(s, x as int, y as int, z as int);
    lemma_channels(x as int, y as int, z as int);
}

proof fn lemma_channels(x: int, y: int, z: int)
    requires
        0 <= x < 256,
        0 <= y < 256,
        0 <= z < 256,
    ensures
        (256 * (256 * x + y) + z) / 65536 % 256 == x,
        (256 * (256 * x + y) + z) / 256 % 256 == y,
        (256 * (256 * x + y) + z) % 256 == z,
{
}

proof fn lemma_hex_number(s: Seq<char>, x: int, y: int, z: int)
    requires
        s.len() == 7,
        s[0] == '#',
        forall|i: int| 1 <= i < 7 ==> style::hex_digit(#[trigger] s[i]) is Some,
        x == 16 * style::hex_digit(s[1])->0 + style::hex_digit(s[2])->0,
        y == 16 * style::hex_digit(s[3])->0 + style::hex_digit(s[4])->0,
        z == 16 * style::hex_digit(s[5])->0 + style::hex_digit(s[6])->0,
        0 <= x < 256,
        0 <= y < 256,
        0 <= z < 256,
    ensures
        style::hex_number(s) == 256 * (256 * x + y) + z,
{
    let t = s.drop_first();
    assert(style::hex_digit('+') is None && style::hex_digit('#') is None);
    assert(t[0] == s[1]);
    assert(style::without_hashes(t) == t);
    assert(style::without_hashes(s) == t);
    lemma_hex_pair(t.take(2), 0);
    assert(t.take(4).drop_last().drop_last() =~= t.take(2));
    lemma_hex_pair(t.take(4), x as nat);
    assert(t.take(6).drop_last().drop_last() =~= t.take(4));
    lemma_hex_pair(t.take(6), (256 * x + y) as nat);
    assert(t.take(6) =~= t);
}

/// Two digits more make the number 256 times as large.
proof fn lemma_hex_pair(t: Seq<char>, before: nat)
    requires
        t.len() >= 2,
        style::hex_digit(t[t.len() - 2]) is Some,
        style::hex_digit(t[t.len() - 1]) is Some,
        t.len() == 2 ==> before == 0,
        t.len() > 2 ==> style::hex_value(t.drop_last().drop_last()) == Some(before),
    ensures
        style::hex_value(t) == Some(
            (256 * before + 16 * style::hex_digit(t[t.len() - 2])->0 + style::hex_digit(
                t[t.len() - 1],
            )->0) as nat,
        ),
{
    let u = t.drop_last();
    assert(u.last() == t[t.len() - 2]);
    if t.len() == 2 {
        assert(style::hex_value(u.drop_last()) == Some(0nat));
    }
    assert(style::hex_value(u) == Some((16 * before + style::hex_digit(u.last())->0) as nat));
}

proof fn lemma_hex(c: char)
    ensures
        style::hex_digit(c) is Some ==> style::hex_digit(c)->0 < 16,
{
}

/// The digits are counted from zero to fifteen, and capitals count like small
/// letters.
pub proof fn law_hex_digits(c: char)
    ensures
        '0' <= c <= '9' ==> style::hex_digit(c) == Some((c as int - '0' as int) as nat),
        'a' <= c <= 'f' ==> style::hex_digit(c) == Some((c as int - 'a' as int + 10) as nat),
        'A' <= c <= 'F' ==> style::hex_digit(c) == Some((c as int - 'A' as int + 10) as nat),
        style::hex_digit(c) is Some ==> '0' <= c <= '9' || 'a' <= c <= 'f' || 'A' <= c <= 'F',
{
}

/// A style laid over another wins where it has a color, and lets the lower one
/// through where it has none. Nothing becomes less bold or upright.
pub proof fn law_upper_styles_win(under: Style, over: Style)
    ensures
        over.fg is Some ==> under.patched(over).fg == over.fg,
        over.fg is None ==> under.patched(over).fg == under.fg,
        over.bg is Some ==> under.patched(over).bg == over.bg,
        over.bg is None ==> under.patched(over).bg == under.bg,
        under.bold || over.bold <==> under.patched(over).bold,
        under.italic || over.italic <==> under.patched(over).italic,
        Style::plain().patched(over) == over,
        under.patched(Style::plain()) == under,
{
}

/// Colors are told apart by their channels.
pub proof fn law_styles_carry_their_color(c: Color)
    ensures
        Style::colored(c).fg == Some(c) && !Style::colored(c).bold && Style::colored(c).bg is None,
        Style::strong(c).fg == Some(c) && Style::strong(c).bold && Style::strong(c).bg is None,
{
}

// ---------------------------------------------------------------------------
// Clean texts
// ---------------------------------------------------------------------------

/// A text without anything unsafe is shown as it is.
pub proof fn law_safe_text_stays(s: Seq<char>, multiline: bool)
    requires
        forall|i: int| 0 <= i < s.len() ==> !text::hostile(#[trigger] s[i]),
    ensures
        text::clean_text(s, multiline) == s,
    decreases s.len(),
{
    if s.len() > 0 {
        let front = s.drop_last();
        assert forall|i: int| 0 <= i < front.len() implies !text::hostile(#[trigger] front[i]) by {
            assert(s[i] == front[i]);
        }
        law_safe_text_stays(front, multiline);
        assert(text::hostile('\n') && text::hostile('\t'));
        assert(s[s.len() - 1] == s.last());
        assert(front.push(s.last()) =~= s);
    } else {
        assert(s =~= Seq::<char>::empty());
    }
}

/// A title without anything unsafe and without white space at its end is shown
/// as it is.
pub proof fn law_safe_titles_stay(s: Seq<char>)
    requires
        forall|i: int| 0 <= i < s.len() ==> !text::hostile(#[trigger] s[i]),
        s.len() > 0 ==> !text::white(s.last()),
    ensures
        text::clean_title(s) == s,
{
    lemma_title_fold(s);
}

proof fn lemma_title_fold(s: Seq<char>)
    requires
        forall|i: int| 0 <= i < s.len() ==> !text::hostile(#[trigger] s[i]),
    ensures
        text::title_fold(s) == (s, false),
    decreases s.len(),
{
    if s.len() > 0 {
        let front = s.drop_last();
        assert forall|i: int| 0 <= i < front.len() implies !text::hostile(#[trigger] front[i]) by {
            assert(s[i] == front[i]);
        }
        lemma_title_fold(front);
        assert(text::hostile('\n') && text::hostile('\r') && text::hostile('\t'));
        assert(s[s.len() - 1] == s.last());
        assert(front.push(s.last()) =~= s);
    } else {
        assert(s =~= Seq::<char>::empty());
    }
}

/// An id without anything unsafe, white space or a dash at its end is shown as
/// it is, as far as there is room.
pub proof fn law_safe_ids_stay(s: Seq<char>)
    requires
        0 < s.len() <= 120,
        forall|i: int|
            0 <= i < s.len() ==> !text::hostile(#[trigger] s[i]) && !text::white(s[i]),
        s.last() != '-',
    ensures
        text::clean_id(s) == s,
{
    lemma_id_fold(s);
}

proof fn lemma_id_fold(s: Seq<char>)
    requires
        forall|i: int|
            0 <= i < s.len() ==> !text::hostile(#[trigger] s[i]) && !text::white(s[i]),
    ensures
        text::id_fold(s) == (s, false),
    decreases s.len(),
{
    if s.len() > 0 {
        let front = s.drop_last();
        assert forall|i: int| 0 <= i < front.len() implies !text::hostile(#[trigger] front[i])
            && !text::white(front[i]) by {
            assert(s[i] == front[i]);
        }
        lemma_id_fold(front);
        assert(s[s.len() - 1] == s.last());
        assert(front.push(s.last()) =~= s);
    } else {
        assert(s =~= Seq::<char>::empty());
    }
}

/// Control codes and marks that are invisible or turn text around are unsafe;
/// letters, digits and the joiners that scripts need are not.
pub proof fn law_unsafe_characters(c: char)
    ensures
        c as u32 <= 0x1f || 0x7f <= c as u32 <= 0x9f ==> text::hostile(c),
        0x202a <= c as u32 <= 0x202e || 0x2066 <= c as u32 <= 0x2069 ==> text::hostile(c),
        0x20 <= c as u32 <= 0x7e ==> !text::hostile(c),
        c as u32 == 0x200c || c as u32 == 0x200d ==> !text::hostile(c),
        0x4e00 <= c as u32 <= 0x9fff ==> !text::hostile(c),
{
}

} // verus!
