//! Text handling on sequences of characters: whitespace splitting, splitting
//! on a separator, joining, number parsing and hex formatting, and ordering.
use vstd::prelude::*;

verus! {

/// Rust's `char::is_whitespace`: the characters with the Unicode
/// `White_Space` property.
pub open spec fn is_ws(c: char) -> bool {
    ||| '\t' <= c <= '\r'
    ||| c == ' '
    ||| c == '\u{85}'
    ||| c == '\u{A0}'
    ||| c == '\u{1680}'
    ||| '\u{2000}' <= c <= '\u{200A}'
    ||| c == '\u{2028}'
    ||| c == '\u{2029}'
    ||| c == '\u{202F}'
    ||| c == '\u{205F}'
    ||| c == '\u{3000}'
}

pub fn char_is_ws(c: char) -> (r: bool)
    ensures
        r == is_ws(c),
{
    ('\t' <= c && c <= '\r') || c == ' ' || c == '\u{85}' || c == '\u{A0}' || c == '\u{1680}' || (
    '\u{2000}' <= c && c <= '\u{200A}') || c == '\u{2028}' || c == '\u{2029}' || c == '\u{202F}'
        || c == '\u{205F}' || c == '\u{3000}'
}

/// The characters of a string.
pub fn str_chars(s: &str) -> (r: Vec<char>)
    ensures
        r@ == s@,
{
    let mut out: Vec<char> = Vec::new();
    for c in it: s.chars()
        invariant
            out@ == it.seq().subrange(0, it.index()),
    {
        out.push(c);
        assert(out@ =~= it.seq().subrange(0, it.index() + 1));
    }
    assert(out@ =~= s@);
    out
}

/// `String::from_iter`: the string of the given characters.
#[verifier::external_body]
pub(crate) fn chars_to_string(v: &[char]) -> (r: String)
    ensures
        r@ == v@,
{
    String::from_iter(v.iter())
}

/// `str::split_whitespace`: the maximal runs of non-whitespace characters.
pub open spec fn words(s: Seq<char>) -> Seq<Seq<char>>
    decreases s.len(),
{
    if s.len() == 0 {
        Seq::empty()
    } else {
        let w = words(s.drop_last());
        let c = s.last();
        if is_ws(c) {
            w
        } else if s.len() >= 2 && !is_ws(s[s.len() - 2]) {
            w.drop_last().push(w.last().push(c))
        } else {
            w.push(seq![c])
        }
    }
}

proof fn lemma_words_nonempty(s: Seq<char>)
    ensures
        s.len() > 0 && !is_ws(s.last()) ==> words(s).len() > 0,
    decreases s.len(),
{
    if s.len() > 0 {
        lemma_words_nonempty(s.drop_last());
    }
}

/// The whitespace separated words of `s`.
pub fn split_words(s: &[char]) -> (r: Vec<Vec<char>>)
    ensures
        r@.map_values(|w: Vec<char>| w@) == words(s@),
{
    let mut out: Vec<Vec<char>> = Vec::new();
    let mut cur: Vec<char> = Vec::new();
    let mut in_word = false;
    let mut i: usize = 0;
    while i < s.len()
        invariant
            i <= s@.len(),
            in_word == (i > 0 && !is_ws(s@[i - 1])),
            in_word ==> out@.map_values(|w: Vec<char>| w@).push(cur@) == words(s@.subrange(0, i as int)),
            !in_word ==> out@.map_values(|w: Vec<char>| w@) == words(s@.subrange(0, i as int)),
            !in_word ==> cur@.len() == 0,
        decreases s@.len() - i,
    {
        let c = s[i];
        let ghost pre = s@.subrange(0, i as int);
        assert(s@.subrange(0, i + 1).drop_last() =~= pre);
        let ghost old_out = out@.map_values(|w: Vec<char>| w@);
        if char_is_ws(c) {
            if in_word {
                let w = cur;
                out.push(w);
                cur = Vec::new();
                assert(out@.map_values(|w: Vec<char>| w@) =~= old_out.push(w@));
            }
            in_word = false;
        } else {
            proof {
                lemma_words_nonempty(pre);
            }
            let ghost old_cur = cur@;
            cur.push(c);
            if !in_word {
                assert(old_cur =~= Seq::<char>::empty());
                assert(cur@ =~= seq![c]);
            } else {
                assert(old_out.push(old_cur).drop_last() =~= old_out);
            }
            in_word = true;
        }
        i = i + 1;
    }
    if in_word {
        out.push(cur);
    }
    assert(s@.subrange(0, i as int) =~= s@);
    assert(out@.map_values(|w: Vec<char>| w@) =~= words(s@));
    out
}

/// `str::split` on one character: the pieces between separators, empty
/// pieces included; there is always at least one.
pub open spec fn pieces(s: Seq<char>, sep: char) -> Seq<Seq<char>>
    decreases s.len(),
{
    if s.len() == 0 {
        seq![Seq::empty()]
    } else {
        let p = pieces(s.drop_last(), sep);
        if s.last() == sep {
            p.push(Seq::empty())
        } else {
            p.drop_last().push(p.last().push(s.last()))
        }
    }
}

pub proof fn lemma_pieces_nonempty(s: Seq<char>, sep: char)
    ensures
        pieces(s, sep).len() >= 1,
    decreases s.len(),
{
    if s.len() > 0 {
        lemma_pieces_nonempty(s.drop_last(), sep);
    }
}

pub open spec fn chars_view(v: Seq<Vec<char>>) -> Seq<Seq<char>> {
    v.map_values(|w: Vec<char>| w@)
}

/// The pieces of `s` between occurrences of `sep`.
pub fn split_on(s: &[char], sep: char) -> (r: Vec<Vec<char>>)
    ensures
        chars_view(r@) == pieces(s@, sep),
{
    let mut out: Vec<Vec<char>> = Vec::new();
    let mut cur: Vec<char> = Vec::new();
    let mut i: usize = 0;
    proof {
        assert(s@.subrange(0, 0) =~= Seq::<char>::empty());
    }
    while i < s.len()
        invariant
            i <= s@.len(),
            chars_view(out@).push(cur@) == pieces(s@.subrange(0, i as int), sep),
        decreases s@.len() - i,
    {
        let c = s[i];
        let ghost pre = s@.subrange(0, i as int);
        assert(s@.subrange(0, i + 1).drop_last() =~= pre);
        let ghost old_out = chars_view(out@);
        let ghost old_cur = cur@;
        if c == sep {
            let w = cur;
            out.push(w);
            cur = Vec::new();
            assert(chars_view(out@) =~= old_out.push(old_cur));
        } else {
            cur.push(c);
            assert(old_out.push(old_cur).drop_last() =~= old_out);
        }
        i = i + 1;
        assert(chars_view(out@).push(cur@) =~= pieces(s@.subrange(0, i as int), sep));
    }
    assert(s@.subrange(0, i as int) =~= s@);
    let ghost before = chars_view(out@);
    out.push(cur);
    assert(chars_view(out@) =~= before.push(cur@));
    out
}

/// The parts joined with `sep` between them.
pub open spec fn join(parts: Seq<Seq<char>>, sep: Seq<char>) -> Seq<char>
    decreases parts.len(),
{
    if parts.len() == 0 {
        Seq::empty()
    } else if parts.len() == 1 {
        parts[0]
    } else {
        join(parts.drop_last(), sep) + sep + parts.last()
    }
}

/// Joining after one more part: the part alone, or the parts so far, the
/// separator and the part.
pub proof fn lemma_join_push(a: Seq<Seq<char>>, x: Seq<char>, sep: Seq<char>)
    ensures
        join(a.push(x), sep) == if a.len() == 0 {
            x
        } else {
            join(a, sep) + sep + x
        },
{
    assert(a.push(x).drop_last() =~= a);
}

/// Joining the pieces that a string is split into at `sep` gives the string
/// back.
pub proof fn lemma_join_pieces(s: Seq<char>, sep: char)
    ensures
        join(pieces(s, sep), seq![sep]) == s,
    decreases s.len(),
{
    if s.len() > 0 {
        let p = pieces(s.drop_last(), sep);
        lemma_join_pieces(s.drop_last(), sep);
        lemma_pieces_nonempty(s.drop_last(), sep);
        if s.last() == sep {
            lemma_join_push(p, Seq::empty(), seq![sep]);
            assert(s =~= s.drop_last() + seq![sep] + Seq::<char>::empty());
        } else {
            let q = p.drop_last();
            lemma_join_push(q, p.last().push(s.last()), seq![sep]);
            lemma_join_push(q, p.last(), seq![sep]);
            assert(q.push(p.last()) =~= p);
            if q.len() == 0 {
                assert(s =~= s.drop_last().push(s.last()));
            } else {
                assert(s =~= (join(q, seq![sep]) + seq![sep] + p.last()).push(s.last()));
            }
        }
    }
}

/// Joining parts whose last part is itself the join of `b` is joining the
/// parts and all of `b`.
pub proof fn lemma_join_nested(a: Seq<Seq<char>>, b: Seq<Seq<char>>, sep: Seq<char>)
    requires
        b.len() >= 1,
    ensures
        join(a.push(join(b, sep)), sep) == join(a + b, sep),
    decreases b.len(),
{
    if b.len() == 1 {
        assert(a.push(join(b, sep)) =~= a + b);
    } else {
        let bd = b.drop_last();
        lemma_join_nested(a, bd, sep);
        lemma_join_push(a, join(b, sep), sep);
        lemma_join_push(a, join(bd, sep), sep);
        assert((a + b).drop_last() =~= a + bd);
        assert((a + b).last() == b.last());
        if a.len() == 0 {
            assert(a + b =~= b);
        } else {
            assert(join(a, sep) + sep + join(b, sep) =~= join(a, sep) + sep + join(bd, sep) + sep
                + b.last());
        }
    }
}

/// The parts joined with `sep` between them.
pub fn join_chars(parts: &[Vec<char>], sep: &[char]) -> (r: Vec<char>)
    ensures
        r@ == join(chars_view(parts@), sep@),
{
    let mut out: Vec<char> = Vec::new();
    let mut i: usize = 0;
    while i < parts.len()
        invariant
            i <= parts@.len(),
            out@ == join(chars_view(parts@.subrange(0, i as int)), sep@),
        decreases parts@.len() - i,
    {
        assert(chars_view(parts@.subrange(0, i + 1)).drop_last() =~= chars_view(
            parts@.subrange(0, i as int),
        ));
        if i > 0 {
            append_chars(&mut out, sep);
        }
        append_chars(&mut out, parts[i].as_slice());
        i = i + 1;
        assert(chars_view(parts@.subrange(0, i as int)).last() == parts@[i - 1]@);
        if i == 1 {
            assert(out@ =~= parts@[0]@);
        }
    }
    assert(parts@.subrange(0, i as int) =~= parts@);
    out
}

/// Appends `more` to `out`.
pub fn append_chars(out: &mut Vec<char>, more: &[char])
    ensures
        final(out)@ == old(out)@ + more@,
{
    let mut i: usize = 0;
    while i < more.len()
        invariant
            i <= more@.len(),
            out@ == old(out)@ + more@.subrange(0, i as int),
        decreases more@.len() - i,
    {
        out.push(more[i]);
        i = i + 1;
        assert(out@ =~= old(out)@ + more@.subrange(0, i as int));
    }
    assert(more@.subrange(0, i as int) =~= more@);
}

/// `str::contains` for a string needle: `needle` occurs in `hay`.
pub open spec fn has_sub(hay: Seq<char>, needle: Seq<char>) -> bool {
    exists|i: int| 0 <= i <= hay.len() - needle.len() && #[trigger] occurs_at(hay, needle, i)
}

/// `needle` occurs in `hay` at `i`.
pub open spec fn occurs_at(hay: Seq<char>, needle: Seq<char>, i: int) -> bool {
    hay.subrange(i, i + needle.len()) == needle
}

/// Whether `needle` occurs in `hay`.
pub fn contains_chars(hay: &[char], needle: &[char]) -> (r: bool)
    ensures
        r == has_sub(hay@, needle@),
{
    if needle.len() > hay.len() {
        return false;
    }
    let last = hay.len() - needle.len();
    let mut i: usize = 0;
    while i <= last
        invariant
            last == hay@.len() - needle@.len(),
            forall|j: int| 0 <= j < i ==> !#[trigger] occurs_at(hay@, needle@, j),
        decreases last + 1 - i,
    {
        let mut k: usize = 0;
        let mut same = true;
        while k < needle.len()
            invariant
                k <= needle@.len(),
                i <= last,
                last + needle.len() == hay.len(),
                same == (forall|m: int| 0 <= m < k ==> hay@[i + m] == needle@[m]),
            decreases needle@.len() - k,
        {
            if hay[i + k] != needle[k] {
                same = false;
            }
            k = k + 1;
        }
        if same {
            assert(hay@.subrange(i as int, i + needle@.len()) =~= needle@);
            assert(occurs_at(hay@, needle@, i as int));
            return true;
        }
        assert(!occurs_at(hay@, needle@, i as int)) by {
            let m = choose|m: int| 0 <= m < k && hay@[i + m] != needle@[m];
            assert(hay@.subrange(i as int, i + needle@.len())[m] != needle@[m]);
        }
        if i == last {
            return false;
        }
        i = i + 1;
    }
    false
}

/// The value of a digit character in base `radix` (as `char::to_digit`),
/// or `radix` or more where `c` is no digit of that base.
pub open spec fn digit_of(c: char) -> int {
    if '0' <= c <= '9' {
        c as int - '0' as int
    } else if 'a' <= c <= 'z' {
        c as int - 'a' as int + 10
    } else if 'A' <= c <= 'Z' {
        c as int - 'A' as int + 10
    } else {
        36
    }
}

/// The value of the digits in base `radix`, where all are digits of it.
pub open spec fn digits_value(s: Seq<char>, radix: int) -> Option<int>
    decreases s.len(),
{
    if s.len() == 0 {
        Some(0)
    } else {
        match digits_value(s.drop_last(), radix) {
            Some(v) => if digit_of(s.last()) < radix {
                Some(v * radix + digit_of(s.last()))
            } else {
                None
            },
            None => None,
        }
    }
}

/// `u32::from_str_radix`: an optional `+`, then one or more digits of base
/// `radix`, whose value fits in a `u32`.
pub open spec fn parse_u32(s: Seq<char>, radix: int) -> Option<u32> {
    let d = if s.len() > 0 && s[0] == '+' {
        s.drop_first()
    } else {
        s
    };
    if d.len() == 0 {
        None
    } else {
        match digits_value(d, radix) {
            Some(v) => if v <= u32::MAX {
                Some(v as u32)
            } else {
                None
            },
            None => None,
        }
    }
}

fn digit_value(c: char) -> (r: u32)
    ensures
        r == digit_of(c),
{
    if '0' <= c && c <= '9' {
        (c as u32) - ('0' as u32)
    } else if 'a' <= c && c <= 'z' {
        (c as u32) - ('a' as u32) + 10
    } else if 'A' <= c && c <= 'Z' {
        (c as u32) - ('A' as u32) + 10
    } else {
        36
    }
}

proof fn lemma_digits_value_grows(s: Seq<char>, t: Seq<char>, radix: int)
    requires
        radix >= 1,
        digits_value(s, radix) is Some,
    ensures
        digits_value(s + t, radix) matches Some(v) ==> v >= digits_value(s, radix)->0,
        digits_value(s, radix)->0 >= 0,
    decreases t.len(),
{
    lemma_digits_value_nonneg(s, radix);
    if t.len() > 0 {
        lemma_digits_value_grows(s, t.drop_last(), radix);
        assert((s + t).drop_last() =~= s + t.drop_last());
        if let Some(v) = digits_value(s + t, radix) {
            let u = digits_value(s + t.drop_last(), radix)->0;
            lemma_digits_value_nonneg(s + t.drop_last(), radix);
            assert(u * radix >= u) by (nonlinear_arith)
                requires
                    u >= 0,
                    radix >= 1,
            ;
        }
    } else {
        assert(s + t =~= s);
    }
}

proof fn lemma_digits_value_nonneg(s: Seq<char>, radix: int)
    requires
        radix >= 1,
    ensures
        digits_value(s, radix) matches Some(v) ==> v >= 0,
    decreases s.len(),
{
    if s.len() > 0 {
        lemma_digits_value_nonneg(s.drop_last(), radix);
        if let Some(v) = digits_value(s.drop_last(), radix) {
            assert(v * radix >= 0) by (nonlinear_arith)
                requires
                    v >= 0,
                    radix >= 1,
            ;
        }
    }
}

/// Parses `s` as a `u32` in base `radix` (as `u32::from_str_radix`).
pub fn parse_u32_radix(s: &[char], radix: u32) -> (r: Option<u32>)
    requires
        2 <= radix <= 36,
    ensures
        r == parse_u32(s@, radix as int),
{
    let start: usize = if s.len() > 0 && s[0] == '+' {
        1
    } else {
        0
    };
    let ghost d = if s@.len() > 0 && s@[0] == '+' {
        s@.drop_first()
    } else {
        s@
    };
    assert(d =~= s@.subrange(start as int, s@.len() as int));
    if start == s.len() {
        return None;
    }
    let mut v: u64 = 0;
    let mut i: usize = start;
    while i < s.len()
        invariant
            start <= i <= s@.len(),
            2 <= radix <= 36,
            d == s@.subrange(start as int, s@.len() as int),
            d == (if s@.len() > 0 && s@[0] == '+' {
                s@.drop_first()
            } else {
                s@
            }),
            d.len() > 0,
            digits_value(s@.subrange(start as int, i as int), radix as int) == Some(v as int),
            v <= u32::MAX,
        decreases s@.len() - i,
    {
        let dv = digit_value(s[i]);
        assert(s@.subrange(start as int, i + 1).drop_last() =~= s@.subrange(start as int, i as int));
        if dv >= radix {
            proof {
                lemma_digits_none_extends(
                    s@.subrange(start as int, i + 1),
                    s@.subrange(i + 1, s@.len() as int),
                    radix as int,
                );
                assert(s@.subrange(start as int, i + 1) + s@.subrange(i + 1, s@.len() as int)
                    =~= d);
                assert(digits_value(d, radix as int) is None);
            }
            return None;
        }
        assert(v * (radix as u64) + (dv as u64) <= 36 * 0xFFFF_FFFFu64 + 36) by (nonlinear_arith)
            requires
                v <= 0xFFFF_FFFFu64,
                radix <= 36,
                dv < radix,
        ;
        v = v * (radix as u64) + (dv as u64);
        i = i + 1;
        if v > 0xFFFF_FFFF {
            proof {
                lemma_digits_value_grows(
                    s@.subrange(start as int, i as int),
                    s@.subrange(i as int, s@.len() as int),
                    radix as int,
                );
                assert(s@.subrange(start as int, i as int) + s@.subrange(i as int, s@.len() as int)
                    =~= d);
                assert(digits_value(d, radix as int) matches Some(w) ==> w > u32::MAX);
            }
            return None;
        }
    }
    assert(s@.subrange(start as int, i as int) =~= d);
    Some(v as u32)
}

proof fn lemma_digits_none_extends(s: Seq<char>, t: Seq<char>, radix: int)
    requires
        digits_value(s, radix) is None,
    ensures
        digits_value(s + t, radix) is None,
    decreases t.len(),
{
    if t.len() > 0 {
        lemma_digits_none_extends(s, t.drop_last(), radix);
        assert((s + t).drop_last() =~= s + t.drop_last());
    } else {
        assert(s + t =~= s);
    }
}

/// The upper-case hex digit of `v` (below 16).
pub open spec fn hex_char(v: u32) -> char {
    if v < 10 {
        (v + 48) as char
    } else {
        (v + 55) as char
    }
}

/// `format!("{:#010X}", n)`: `0x` and the eight upper-case hex digits of `n`.
pub open spec fn hex10(n: u32) -> Seq<char> {
    seq![
        '0',
        'x',
        hex_char((n >> 28u32) & 0xF),
        hex_char((n >> 24u32) & 0xF),
        hex_char((n >> 20u32) & 0xF),
        hex_char((n >> 16u32) & 0xF),
        hex_char((n >> 12u32) & 0xF),
        hex_char((n >> 8u32) & 0xF),
        hex_char((n >> 4u32) & 0xF),
        hex_char(n & 0xF),
    ]
}

fn hex_digit(v: u32) -> (r: char)
    requires
        v < 16,
    ensures
        r == hex_char(v),
{
    match v {
        0 => '0',
        1 => '1',
        2 => '2',
        3 => '3',
        4 => '4',
        5 => '5',
        6 => '6',
        7 => '7',
        8 => '8',
        9 => '9',
        10 => 'A',
        11 => 'B',
        12 => 'C',
        13 => 'D',
        14 => 'E',
        _ => 'F',
    }
}

/// `0x` and the eight upper-case hex digits of `n`.
pub fn format_hex10(n: u32) -> (r: Vec<char>)
    ensures
        r@ == hex10(n),
{
    let mut out: Vec<char> = Vec::new();
    out.push('0');
    out.push('x');
    assert((n >> 28u32) & 0xF < 16 && (n >> 24u32) & 0xF < 16 && (n >> 20u32) & 0xF < 16 && (n
        >> 16u32) & 0xF < 16 && (n >> 12u32) & 0xF < 16 && (n >> 8u32) & 0xF < 16 && (n >> 4u32)
        & 0xF < 16 && n & 0xF < 16) by (bit_vector);
    out.push(hex_digit((n >> 28) & 0xF));
    out.push(hex_digit((n >> 24) & 0xF));
    out.push(hex_digit((n >> 20) & 0xF));
    out.push(hex_digit((n >> 16) & 0xF));
    out.push(hex_digit((n >> 12) & 0xF));
    out.push(hex_digit((n >> 8) & 0xF));
    out.push(hex_digit((n >> 4) & 0xF));
    out.push(hex_digit(n & 0xF));
    assert(out@ =~= hex10(n));
    out
}

/// `a` comes before `b` in lexicographic order of code points (the order of
/// `String`s).
pub open spec fn lex_lt(a: Seq<char>, b: Seq<char>) -> bool
    decreases a.len(),
{
    if a.len() == 0 {
        b.len() > 0
    } else if b.len() == 0 {
        false
    } else if a[0] != b[0] {
        (a[0] as u32) < (b[0] as u32)
    } else {
        lex_lt(a.drop_first(), b.drop_first())
    }
}

/// `a` comes before `b` or is `b`.
pub open spec fn lex_le(a: Seq<char>, b: Seq<char>) -> bool {
    !lex_lt(b, a)
}

/// Whether `a` comes before `b` in lexicographic order.
pub fn lex_less(a: &[char], b: &[char]) -> (r: bool)
    ensures
        r == lex_lt(a@, b@),
{
    let mut i: usize = 0;
    assert(a@.skip(0) =~= a@);
    assert(b@.skip(0) =~= b@);
    while i < a.len() && i < b.len()
        invariant
            i <= a@.len(),
            i <= b@.len(),
            lex_lt(a@, b@) == lex_lt(a@.skip(i as int), b@.skip(i as int)),
        decreases a@.len() - i,
    {
        if a[i] != b[i] {
            return (a[i] as u32) < (b[i] as u32);
        }
        assert(a@.skip(i as int).drop_first() =~= a@.skip(i + 1));
        assert(b@.skip(i as int).drop_first() =~= b@.skip(i + 1));
        i = i + 1;
    }
    i < b.len()
}

/// `x` put into `s` after the last element not after it: for a sorted `s`,
/// after all elements that go before it or with it.
pub open spec fn insert_sorted<T>(s: Seq<T>, x: T, le: spec_fn(T, T) -> bool) -> Seq<T>
    decreases s.len(),
{
    if s.len() == 0 {
        seq![x]
    } else if le(s.last(), x) {
        s.push(x)
    } else {
        insert_sorted(s.drop_last(), x, le).push(s.last())
    }
}

/// The stable sort of `s` by `le`: each element inserted in turn.
pub open spec fn sort_by<T>(s: Seq<T>, le: spec_fn(T, T) -> bool) -> Seq<T>
    decreases s.len(),
{
    if s.len() == 0 {
        Seq::empty()
    } else {
        insert_sorted(sort_by(s.drop_last(), le), s.last(), le)
    }
}

/// Where `insert_sorted` puts `x`: after position `j` when `s[j - 1]` goes
/// before `x` (or `j` is 0) and no element from `j` on does.
pub proof fn lemma_insert_at<T>(s: Seq<T>, x: T, le: spec_fn(T, T) -> bool, j: int)
    requires
        0 <= j <= s.len(),
        j == 0 || le(s[j - 1], x),
        forall|k: int| j <= k < s.len() ==> !le(#[trigger] s[k], x),
    ensures
        insert_sorted(s, x, le) == s.subrange(0, j) + seq![x] + s.subrange(j, s.len() as int),
    decreases s.len(),
{
    if s.len() == 0 {
        assert(s.subrange(0, j) + seq![x] + s.subrange(j, s.len() as int) =~= seq![x]);
    } else if j == s.len() {
        assert(s.subrange(0, j) + seq![x] + s.subrange(j, s.len() as int) =~= s.push(x));
    } else {
        assert(!le(s.last(), x));
        lemma_insert_at(s.drop_last(), x, le, j);
        assert(s.drop_last().subrange(0, j) + seq![x] + s.drop_last().subrange(
            j,
            s.len() - 1,
        ) + seq![s.last()] =~= s.subrange(0, j) + seq![x] + s.subrange(j, s.len() as int));
    }
}

pub open spec fn lex_le_fn() -> spec_fn(Seq<char>, Seq<char>) -> bool {
    |a: Seq<char>, b: Seq<char>| lex_le(a, b)
}

/// The lines in lexicographic order.
pub fn sort_lines(v: Vec<Vec<char>>) -> (r: Vec<Vec<char>>)
    ensures
        chars_view(r@) == sort_by(chars_view(v@), lex_le_fn()),
{
    let mut out: Vec<Vec<char>> = Vec::new();
    let mut i: usize = 0;
    let mut v = v;
    let ghost orig = chars_view(v@);
    while i < v.len()
        invariant
            i <= v@.len(),
            orig == chars_view(v@),
            chars_view(out@) == sort_by(orig.subrange(0, i as int), lex_le_fn()),
        decreases v@.len() - i,
    {
        let x = v[i].clone();
        assert(x@ == orig[i as int]);
        let mut j: usize = out.len();
        while j > 0 && lex_less(x.as_slice(), out[j - 1].as_slice())
            invariant
                j <= out@.len(),
                forall|k: int| j <= k < out@.len() ==> !lex_le(#[trigger] out@[k]@, x@),
            decreases j,
        {
            j = j - 1;
        }
        let ghost before = chars_view(out@);
        proof {
            assert forall|k: int| j <= k < before.len() implies !(lex_le_fn())(
                #[trigger] before[k],
                x@,
            ) by {
                assert(before[k] == out@[k]@);
            }
            if j > 0 {
                assert(before[j - 1] == out@[j - 1]@);
            }
            lemma_insert_at(before, x@, lex_le_fn(), j as int);
        }
        out.insert(j, x);
        assert(chars_view(out@) =~= before.subrange(0, j as int) + seq![x@] + before.subrange(
            j as int,
            before.len() as int,
        ));
        i = i + 1;
        assert(orig.subrange(0, i as int).drop_last() =~= orig.subrange(0, i - 1));
    }
    assert(orig.subrange(0, i as int) =~= orig);
    out
}

/// Whether two character sequences are the same.
pub fn chars_eq(a: &[char], b: &[char]) -> (r: bool)
    ensures
        r == (a@ == b@),
{
    if a.len() != b.len() {
        return false;
    }
    let mut i: usize = 0;
    while i < a.len()
        invariant
            i <= a@.len(),
            a@.len() == b@.len(),
            forall|k: int| 0 <= k < i ==> a@[k] == b@[k],
        decreases a@.len() - i,
    {
        if a[i] != b[i] {
            return false;
        }
        i = i + 1;
    }
    assert(a@ =~= b@);
    true
}

/// Whether one of the pieces is `target`.
pub fn any_piece_is(ps: &[Vec<char>], target: &[char]) -> (r: bool)
    ensures
        r == chars_view(ps@).contains(target@),
{
    let mut i: usize = 0;
    while i < ps.len()
        invariant
            i <= ps@.len(),
            forall|k: int| 0 <= k < i ==> ps@[k]@ != target@,
        decreases ps@.len() - i,
    {
        if chars_eq(ps[i].as_slice(), target) {
            assert(chars_view(ps@)[i as int] == target@);
            return true;
        }
        i = i + 1;
    }
    assert forall|k: int| 0 <= k < chars_view(ps@).len() implies chars_view(ps@)[k] != target@ by {
        assert(chars_view(ps@)[k] == ps@[k]@);
    }
    false
}

} // verus!
