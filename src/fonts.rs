//! Hershey vector fonts: the glyph lines of a `.jhf` file and the glyph
//! numbers of the font the game draws its text with.
//!
//! A glyph line holds a five-column glyph number, a three-column vertex
//! count, then pairs of letters: the first pair gives the glyph's left and
//! right margins, each later pair a point, and the pair `" R"` lifts the pen
//! to start a new stroke.  A letter's coordinate is its distance from `R`.
use vstd::prelude::*;

verus! {

/// A glyph: its margins and its strokes, each a polyline of points.
pub struct Glyph {
    pub left: i32,
    pub right: i32,
    pub strokes: Vec<Vec<(i32, i32)>>,
}

/// The coordinate a letter stands for.
pub open spec fn coord(c: u8) -> i32 {
    (c as int - 82) as i32
}

pub fn coord_exec(c: u8) -> (r: i32)
    ensures
        r == coord(c),
{
    c as i32 - 82
}

/// The strokes drawn by the first `n` pairs of `pairs`.
pub open spec fn strokes_upto(pairs: Seq<u8>, n: nat) -> Seq<Seq<(i32, i32)>>
    decreases n,
{
    if n == 0 {
        seq![Seq::<(i32, i32)>::empty()]
    } else {
        let prev = strokes_upto(pairs, (n - 1) as nat);
        let cx = pairs[2 * (n - 1)];
        let cy = pairs[2 * (n - 1) + 1];
        if cx == 32u8 && cy == 82u8 {
            prev.push(Seq::<(i32, i32)>::empty())
        } else {
            prev.update(prev.len() - 1, prev.last().push((coord(cx), coord(cy))))
        }
    }
}

proof fn lemma_strokes_nonempty(pairs: Seq<u8>, n: nat)
    ensures
        strokes_upto(pairs, n).len() >= 1,
    decreases n,
{
    if n > 0 {
        lemma_strokes_nonempty(pairs, (n - 1) as nat);
    }
}

/// The decimal value of a sequence of digits.
pub open spec fn decimal(s: Seq<u8>) -> nat
    decreases s.len(),
{
    if s.len() == 0 {
        0
    } else {
        decimal(s.drop_last()) * 10 + (s.last() - 48) as nat
    }
}

pub open spec fn is_digit(c: u8) -> bool {
    48 <= c <= 57
}

/// `field` is blanks before `a`, digits from `a` up to `b`, blanks after.
pub open spec fn digits_between(field: Seq<u8>, a: int, b: int) -> bool {
    &&& 0 <= a < b <= field.len()
    &&& forall|k: int| 0 <= k < a ==> field[k] == 32u8
    &&& forall|k: int| a <= k < b ==> is_digit(#[trigger] field[k])
    &&& forall|k: int| b <= k < field.len() ==> field[k] == 32u8
}

/// The number written in `field`: digits with blanks on either side.
pub open spec fn field_number(field: Seq<u8>) -> Option<nat> {
    if exists|a: int, b: int| #[trigger] digits_between(field, a, b) {
        let (a, b) = choose|a: int, b: int| #[trigger] digits_between(field, a, b);
        Some(decimal(field.subrange(a, b)))
    } else {
        None
    }
}

/// Reads the glyph number of a line: its first five bytes, a number with
/// blanks around it.
fn read_number(line: &Vec<u8>) -> (r: Option<u32>)
    requires
        line@.len() >= 5,
    ensures
        r matches Some(v) ==> field_number(line@.subrange(0, 5)) == Some(v as nat),
        r is None ==> field_number(line@.subrange(0, 5)) is None,
{
    let ghost f = line@.subrange(0, 5);
    let mut a: usize = 0;
    while a < 5 && line[a] == 32u8
        invariant
            a <= 5,
            line@.len() >= 5,
            forall|k: int| 0 <= k < a ==> line@[k] == 32u8,
        decreases 5 - a,
    {
        a = a + 1;
    }
    let mut b: usize = a;
    let mut v: u32 = 0;
    while b < 5 && 48u8 <= line[b] && line[b] <= 57u8
        invariant
            a <= b <= 5,
            line@.len() >= 5,
            forall|k: int| a <= k < b ==> is_digit(#[trigger] line@[k]),
            v == decimal(line@.subrange(a as int, b as int)),
            v < pow10((b - a) as nat),
            pow10((b - a) as nat) <= 100000,
        decreases 5 - b,
    {
        proof {
            assert(line@.subrange(a as int, b + 1).drop_last() == line@.subrange(a as int, b as int));
            lemma_pow10_step((b - a) as nat);
            let p = pow10((b - a) as nat);
            assert(v * 10 + 9 < 10 * p) by (nonlinear_arith)
                requires
                    v < p,
            ;
        }
        v = v * 10 + (line[b] - 48u8) as u32;
        b = b + 1;
    }
    let mut c: usize = b;
    while c < 5 && line[c] == 32u8
        invariant
            b <= c <= 5,
            line@.len() >= 5,
            forall|k: int| b <= k < c ==> line@[k] == 32u8,
        decreases 5 - c,
    {
        c = c + 1;
    }
    proof {
        assert(f.subrange(a as int, b as int) =~= line@.subrange(a as int, b as int));
        assert forall|k: int| 0 <= k < 5 implies f[k] == line@[k] by {}
    }
    if b > a && c == 5 {
        proof {
            assert(digits_between(f, a as int, b as int));
            let (a2, b2) = choose|a2: int, b2: int| #[trigger] digits_between(f, a2, b2);
            lemma_split_unique(f, a as int, b as int, a2, b2);
        }
        Some(v)
    } else {
        proof {
            if field_number(f) is Some {
                let (a2, b2) = choose|a2: int, b2: int| #[trigger] digits_between(f, a2, b2);
                if a2 < a {
                    assert(f[a2] == 32u8);
                    assert(is_digit(f[a2]));
                }
                if a2 > a {
                    assert(f[a as int] == 32u8);
                }
                assert(a2 == a);
                if b2 < b {
                    assert(is_digit(f[b2]));
                    assert(f[b2] == 32u8);
                }
                if b2 > b {
                    assert(is_digit(f[b as int]));
                }
                assert(b2 == b);
                if c < 5 {
                    assert(f[c as int] == 32u8);
                }
            }
        }
        None
    }
}

pub open spec fn pow10(n: nat) -> nat
    decreases n,
{
    if n == 0 {
        1
    } else {
        10 * pow10((n - 1) as nat)
    }
}

proof fn lemma_pow10_step(n: nat)
    ensures
        pow10(n + 1) == 10 * pow10(n),
        n <= 4 ==> pow10(n) <= 10000,
        pow10(n) >= 1,
    decreases n,
{
    if n > 0 {
        lemma_pow10_step((n - 1) as nat);
    }
    if n <= 4 {
        assert(pow10(0) == 1);
        assert(pow10(1) == 10);
        assert(pow10(2) == 100);
        assert(pow10(3) == 1000);
        assert(pow10(4) == 10000);
    }
}

/// Blank-digits-blank splits of a field are unique.
proof fn lemma_split_unique(f: Seq<u8>, a: int, b: int, a2: int, b2: int)
    requires
        0 <= a < b <= f.len(),
        0 <= a2 < b2 <= f.len(),
        forall|k: int| 0 <= k < a ==> f[k] == 32u8,
        forall|k: int| a <= k < b ==> is_digit(#[trigger] f[k]),
        forall|k: int| b <= k < f.len() ==> f[k] == 32u8,
        forall|k: int| 0 <= k < a2 ==> f[k] == 32u8,
        forall|k: int| a2 <= k < b2 ==> is_digit(#[trigger] f[k]),
        forall|k: int| b2 <= k < f.len() ==> f[k] == 32u8,
    ensures
        a == a2 && b == b2,
{
    if a < a2 {
        assert(is_digit(f[a]));
    } else if a2 < a {
        assert(is_digit(f[a2]));
    }
    if b < b2 {
        assert(is_digit(f[b]));
    } else if b2 < b {
        assert(is_digit(f[b2]));
    }
}

/// The glyph number and glyph of a line, when the line is well formed: a
/// number in its first five bytes, margins at bytes eight and nine, and
/// whole pairs after them.
pub open spec fn glyph_line_ok(line: Seq<u8>) -> bool {
    &&& line.len() >= 10
    &&& field_number(line.subrange(0, 5)) is Some
    &&& (line.len() - 10) % 2 == 0
}

/// Reads one glyph line of a `.jhf` file.  Returns `None` when the line is
/// not well formed.
pub fn parse_glyph_line(line: &Vec<u8>) -> (r: Option<(u32, Glyph)>)
    ensures
        r is Some <==> glyph_line_ok(line@),
        r matches Some((id, g)) ==> {
            &&& field_number(line@.subrange(0, 5)) == Some(id as nat)
            &&& g.left == coord(line@[8])
            &&& g.right == coord(line@[9])
            &&& g.strokes@.len() == strokes_upto(line@.subrange(10, line@.len() as int), ((line@.len() - 10) / 2) as nat).len()
            &&& forall|k: int| 0 <= k < g.strokes@.len() ==> #[trigger] g.strokes@[k]@ == strokes_upto(
                line@.subrange(10, line@.len() as int),
                ((line@.len() - 10) / 2) as nat,
            )[k]
        },
{
    if line.len() < 10 {
        return None;
    }
    if (line.len() - 10) % 2 != 0 {
        return None;
    }
    let id = match read_number(line) {
        Some(v) => v,
        None => return None,
    };
    let ghost pairs = line@.subrange(10, line@.len() as int);
    let npairs = (line.len() - 10) / 2;
    let mut current: Vec<(i32, i32)> = Vec::new();
    let mut done: Vec<Vec<(i32, i32)>> = Vec::new();
    let mut k: usize = 0;
    let mut j: usize = 10;
    assert(2 * npairs == line@.len() - 10) by (nonlinear_arith)
        requires
            npairs == (line@.len() - 10) / 2,
            (line@.len() - 10) % 2 == 0,
            line@.len() >= 10,
    ;
    proof {
        assert(strokes_upto(pairs, 0) == seq![Seq::<(i32, i32)>::empty()]);
    }
    while k < npairs
        invariant
            j == 10 + 2 * k,
            2 * npairs == line@.len() - 10,
            line@.len() <= usize::MAX,
            line@.len() >= 10,
            npairs == (line@.len() - 10) / 2,
            pairs == line@.subrange(10, line@.len() as int),
            k <= npairs,
            strokes_upto(pairs, k as nat).len() == done@.len() + 1,
            forall|m: int| 0 <= m < done@.len() ==> #[trigger] done@[m]@ == strokes_upto(pairs, k as nat)[m],
            current@ == strokes_upto(pairs, k as nat).last(),
        decreases npairs - k,
    {
        let cx = line[j];
        let cy = line[j + 1];
        proof {
            assert(pairs[2 * k as int] == cx);
            assert(pairs[2 * k + 1] == cy);
            lemma_strokes_nonempty(pairs, k as nat);
        }
        if cx == 32u8 && cy == 82u8 {
            let mut finished: Vec<(i32, i32)> = Vec::new();
            std::mem::swap(&mut finished, &mut current);
            done.push(finished);
        } else {
            current.push((coord_exec(cx), coord_exec(cy)));
        }
        k = k + 1;
        j = j + 2;
        proof {
            let prev = strokes_upto(pairs, (k - 1) as nat);
            let now = strokes_upto(pairs, k as nat);
            assert forall|m: int| 0 <= m < done@.len() implies #[trigger] done@[m]@ == now[m] by {
                assert(now[m] == prev[m] || m == done@.len() - 1);
            }
        }
    }
    done.push(current);
    proof {
        let fin = strokes_upto(pairs, npairs as nat);
        assert forall|m: int| 0 <= m < done@.len() implies #[trigger] done@[m]@ == fin[m] by {}
    }
    Some((id, Glyph { left: coord_exec(line[8]), right: coord_exec(line[9]), strokes: done }))
}

/// The character that glyph `id` of the Futura-like font draws, for the
/// glyphs the game uses.
pub open spec fn futural_char_spec(id: u32) -> Option<char> {
    match id {
        501 => Some('A'),
        502 => Some('B'),
        503 => Some('C'),
        504 => Some('D'),
        505 => Some('E'),
        506 => Some('F'),
        507 => Some('G'),
        508 => Some('H'),
        509 => Some('I'),
        510 => Some('J'),
        511 => Some('K'),
        512 => Some('L'),
        513 => Some('M'),
        514 => Some('N'),
        515 => Some('O'),
        516 => Some('P'),
        517 => Some('Q'),
        518 => Some('R'),
        519 => Some('S'),
        520 => Some('T'),
        521 => Some('U'),
        522 => Some('V'),
        523 => Some('W'),
        524 => Some('X'),
        525 => Some('Y'),
        526 => Some('Z'),
        601 => Some('a'),
        602 => Some('b'),
        603 => Some('c'),
        604 => Some('d'),
        605 => Some('e'),
        606 => Some('f'),
        607 => Some('g'),
        608 => Some('h'),
        609 => Some('i'),
        610 => Some('j'),
        611 => Some('k'),
        612 => Some('l'),
        613 => Some('m'),
        614 => Some('n'),
        615 => Some('o'),
        616 => Some('p'),
        617 => Some('q'),
        618 => Some('r'),
        619 => Some('s'),
        620 => Some('t'),
        621 => Some('u'),
        622 => Some('v'),
        623 => Some('w'),
        624 => Some('x'),
        625 => Some('y'),
        626 => Some('z'),
        699 => Some(' '),
        700 => Some('0'),
        701 => Some('1'),
        702 => Some('2'),
        703 => Some('3'),
        704 => Some('4'),
        705 => Some('5'),
        706 => Some('6'),
        707 => Some('7'),
        708 => Some('8'),
        709 => Some('9'),
        714 => Some('!'),
        715 => Some('?'),
        717 => Some('"'),
        719 => Some('$'),
        720 => Some('/'),
        721 => Some('('),
        722 => Some(')'),
        723 => Some('|'),
        724 => Some('-'),
        725 => Some('+'),
        726 => Some('='),
        728 => Some('*'),
        731 => Some('\''),
        733 => Some('#'),
        734 => Some('&'),
        804 => Some('\\'),
        832 => Some('^'),
        1210 => Some('.'),
        1211 => Some(','),
        1212 => Some(':'),
        1213 => Some(';'),
        1252 => Some('`'),
        1405 => Some('['),
        1406 => Some(']'),
        1407 => Some('{'),
        1408 => Some('}'),
        2241 => Some('<'),
        2242 => Some('>'),
        2246 => Some('~'),
        2271 => Some('%'),
        2273 => Some('@'),
        12345 => Some('_'),
        _ => None,
    }
}

/// The character that glyph `id` of the Futura-like font draws, if the
/// game uses that glyph.
pub fn futural_char(id: u32) -> (r: Option<char>)
    ensures
        r == futural_char_spec(id),
{
    match id {
        501 => Some('A'),
        502 => Some('B'),
        503 => Some('C'),
        504 => Some('D'),
        505 => Some('E'),
        506 => Some('F'),
        507 => Some('G'),
        508 => Some('H'),
        509 => Some('I'),
        510 => Some('J'),
        511 => Some('K'),
        512 => Some('L'),
        513 => Some('M'),
        514 => Some('N'),
        515 => Some('O'),
        516 => Some('P'),
        517 => Some('Q'),
        518 => Some('R'),
        519 => Some('S'),
        520 => Some('T'),
        521 => Some('U'),
        522 => Some('V'),
        523 => Some('W'),
        524 => Some('X'),
        525 => Some('Y'),
        526 => Some('Z'),
        601 => Some('a'),
        602 => Some('b'),
        603 => Some('c'),
        604 => Some('d'),
        605 => Some('e'),
        606 => Some('f'),
        607 => Some('g'),
        608 => Some('h'),
        609 => Some('i'),
        610 => Some('j'),
        611 => Some('k'),
        612 => Some('l'),
        613 => Some('m'),
        614 => Some('n'),
        615 => Some('o'),
        616 => Some('p'),
        617 => Some('q'),
        618 => Some('r'),
        619 => Some('s'),
        620 => Some('t'),
        621 => Some('u'),
        622 => Some('v'),
        623 => Some('w'),
        624 => Some('x'),
        625 => Some('y'),
        626 => Some('z'),
        699 => Some(' '),
        700 => Some('0'),
        701 => Some('1'),
        702 => Some('2'),
        703 => Some('3'),
        704 => Some('4'),
        705 => Some('5'),
        706 => Some('6'),
        707 => Some('7'),
        708 => Some('8'),
        709 => Some('9'),
        714 => Some('!'),
        715 => Some('?'),
        717 => Some('"'),
        719 => Some('$'),
        720 => Some('/'),
        721 => Some('('),
        722 => Some(')'),
        723 => Some('|'),
        724 => Some('-'),
        725 => Some('+'),
        726 => Some('='),
        728 => Some('*'),
        731 => Some('\''),
        733 => Some('#'),
        734 => Some('&'),
        804 => Some('\\'),
        832 => Some('^'),
        1210 => Some('.'),
        1211 => Some(','),
        1212 => Some(':'),
        1213 => Some(';'),
        1252 => Some('`'),
        1405 => Some('['),
        1406 => Some(']'),
        1407 => Some('{'),
        1408 => Some('}'),
        2241 => Some('<'),
        2242 => Some('>'),
        2246 => Some('~'),
        2271 => Some('%'),
        2273 => Some('@'),
        12345 => Some('_'),
        _ => None,
    }
}

/// The line height of the Futura-like font, in font units.
pub const FUTURAL_LINE_HEIGHT: i32 = 32;

} // verus!
