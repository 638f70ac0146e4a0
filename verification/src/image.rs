//! The picture of a challenge: its five digits, each in a colour and at an
//! angle of its own, laid out as an SVG document.
use vstd::prelude::*;
use vstd::string::{StrSliceExecFns, StringExecFns};
use crate::random::draw_between;
use crate::record::MAX_ANSWER;
use crate::text::{all_digits, decimal_digits, is_digit, push_decimal};

verus! {

/// The darkest value that a colour channel is given.
pub const CHANNEL_MIN: u32 = 0x22;

/// The brightest value that a colour channel is given.
pub const CHANNEL_MAX: u32 = 0xCC;

/// The five decimal digits of `answer`, the most significant first, with
/// leading zeros.
pub open spec fn five_digits(answer: u32) -> Seq<u32> {
    seq![
        (answer / 10000 % 10) as u32,
        (answer / 1000 % 10) as u32,
        (answer / 100 % 10) as u32,
        (answer / 10 % 10) as u32,
        (answer % 10) as u32,
    ]
}

/// Splits `answer` into its five digits.
pub fn answer_digits(answer: u32) -> (digits: [u32; 5])
    requires
        answer <= MAX_ANSWER,
    ensures
        digits@ == five_digits(answer),
        forall|i: int| 0 <= i < 5 ==> digits@[i] < 10,
{
    let digits = [
        answer / 10000 % 10,
        answer / 1000 % 10,
        answer / 100 % 10,
        answer / 10 % 10,
        answer % 10,
    ];
    assert(digits@ =~= five_digits(answer));
    digits
}

/// The upper-case hexadecimal digit that stands for `d`, a number below
/// sixteen.
pub open spec fn hex_char(d: nat) -> char {
    if d < 10 {
        ('0' as u32 + d) as char
    } else {
        ('A' as u32 + d - 10) as char
    }
}

/// The colour with the channels `r`, `g` and `b` as text: a hash sign and
/// two upper-case hexadecimal digits for each channel.
pub open spec fn color_text(r: u32, g: u32, b: u32) -> Seq<char> {
    seq![
        '#',
        hex_char((r / 16) as nat),
        hex_char((r % 16) as nat),
        hex_char((g / 16) as nat),
        hex_char((g % 16) as nat),
        hex_char((b / 16) as nat),
        hex_char((b % 16) as nat),
    ]
}

/// The text of one hexadecimal digit.
fn hex_text(d: u32) -> (r: &'static str)
    requires
        d < 16,
    ensures
        r@ == seq![hex_char(d as nat)],
{
    proof {
        reveal_strlit("0");
        reveal_strlit("1");
        reveal_strlit("2");
        reveal_strlit("3");
        reveal_strlit("4");
        reveal_strlit("5");
        reveal_strlit("6");
        reveal_strlit("7");
        reveal_strlit("8");
        reveal_strlit("9");
        reveal_strlit("A");
        reveal_strlit("B");
        reveal_strlit("C");
        reveal_strlit("D");
        reveal_strlit("E");
        reveal_strlit("F");
    }
    let r = match d {
        0 => "0",
        1 => "1",
        2 => "2",
        3 => "3",
        4 => "4",
        5 => "5",
        6 => "6",
        7 => "7",
        8 => "8",
        9 => "9",
        10 => "A",
        11 => "B",
        12 => "C",
        13 => "D",
        14 => "E",
        _ => "F",
    };
    assert(r@ =~= seq![hex_char(d as nat)]);
    r
}

/// Writes a colour as text.
pub fn color_code(r: u32, g: u32, b: u32) -> (text: String)
    requires
        r < 256,
        g < 256,
        b < 256,
    ensures
        text@ == color_text(r, g, b),
{
    proof {
        reveal_strlit("#");
    }
    let mut text = String::from_str("#");
    text.append(hex_text(r / 16));
    text.append(hex_text(r % 16));
    text.append(hex_text(g / 16));
    text.append(hex_text(g % 16));
    text.append(hex_text(b / 16));
    text.append(hex_text(b % 16));
    assert(text@ =~= color_text(r, g, b));
    text
}

/// `text` is a colour whose channels are neither too dark nor too bright.
pub open spec fn is_muted_color(text: Seq<char>) -> bool {
    exists|r: u32, g: u32, b: u32|
        {
            &&& CHANNEL_MIN <= r <= CHANNEL_MAX
            &&& CHANNEL_MIN <= g <= CHANNEL_MAX
            &&& CHANNEL_MIN <= b <= CHANNEL_MAX
            &&& text == #[trigger] color_text(r, g, b)
        }
}

/// A colour drawn at random, each channel between [`CHANNEL_MIN`] and
/// [`CHANNEL_MAX`].
pub fn random_color() -> (text: String)
    ensures
        is_muted_color(text@),
{
    let r: u32 = draw_between(CHANNEL_MIN, CHANNEL_MAX);
    let g: u32 = draw_between(CHANNEL_MIN, CHANNEL_MAX);
    let b: u32 = draw_between(CHANNEL_MIN, CHANNEL_MAX);
    color_code(r, g, b)
}

/// The number of digits in a picture.
pub const GLYPHS: usize = 5;

/// The horizontal position of the digit at place `i`.
pub open spec fn glyph_x(i: int) -> nat {
    (40 + 40 * i) as nat
}

/// The SVG element for one digit: the digit as text at the position `x`,
/// filled with `color` and turned by `rotation`.
pub open spec fn glyph_line(x: nat, color: Seq<char>, rotation: Seq<char>, digit: u32) -> Seq<
    char,
> {
    "    <text font-family='Ani' font-size='50' x='"@ + decimal_digits(x) + "' y='75' fill='"@
        + color + "' transform='rotate("@ + rotation + ")'>"@ + decimal_digits(digit as nat)
        + "</text>\n"@
}

/// The SVG elements for the first `n` digits.
pub open spec fn glyph_lines(
    digits: Seq<u32>,
    colors: Seq<Seq<char>>,
    rotations: Seq<Seq<char>>,
    n: int,
) -> Seq<char>
    decreases n,
{
    if n <= 0 {
        Seq::empty()
    } else {
        glyph_lines(digits, colors, rotations, n - 1) + glyph_line(
            glyph_x(n - 1),
            colors[n - 1],
            rotations[n - 1],
            digits[n - 1],
        )
    }
}

/// The SVG document that shows `digits`, each in its colour and at its
/// angle, on a canvas 280 wide and 100 high.
pub open spec fn svg_text(
    digits: Seq<u32>,
    colors: Seq<Seq<char>>,
    rotations: Seq<Seq<char>>,
) -> Seq<char> {
    "<svg xmlns='http://www.w3.org/2000/svg' height='100' width='280'>\n"@ + glyph_lines(
        digits,
        colors,
        rotations,
        GLYPHS as int,
    ) + "</svg>"@
}

/// Writes the SVG element for one digit at the end of `out`.
fn push_glyph(out: &mut String, x: u32, color: &str, rotation: &str, digit: u32)
    ensures
        final(out)@ == old(out)@ + glyph_line(x as nat, color@, rotation@, digit),
{
    out.append("    <text font-family='Ani' font-size='50' x='");
    push_decimal(out, x);
    out.append("' y='75' fill='");
    out.append(color);
    out.append("' transform='rotate(");
    out.append(rotation);
    out.append(")'>");
    push_decimal(out, digit);
    out.append("</text>\n");
    assert(final(out)@ =~= old(out)@ + glyph_line(x as nat, color@, rotation@, digit));
}

/// Lays out the picture of `digits` as an SVG document. The colours and
/// the angles are taken as the texts that go into the document.
pub fn svg_document(digits: &[u32; 5], colors: &Vec<String>, rotations: &Vec<String>) -> (svg:
    String)
    requires
        colors@.len() == GLYPHS,
        rotations@.len() == GLYPHS,
    ensures
        svg@ == svg_text(
            digits@,
            colors@.map_values(|s: String| s@),
            rotations@.map_values(|s: String| s@),
        ),
{
    let ghost color_texts = colors@.map_values(|s: String| s@);
    let ghost rotation_texts = rotations@.map_values(|s: String| s@);
    let mut svg = String::from_str(
        "<svg xmlns='http://www.w3.org/2000/svg' height='100' width='280'>\n",
    );
    let mut i: usize = 0;
    while i < GLYPHS
        invariant
            i <= GLYPHS,
            colors@.len() == GLYPHS,
            rotations@.len() == GLYPHS,
            color_texts == colors@.map_values(|s: String| s@),
            rotation_texts == rotations@.map_values(|s: String| s@),
            svg@ == "<svg xmlns='http://www.w3.org/2000/svg' height='100' width='280'>\n"@
                + glyph_lines(digits@, color_texts, rotation_texts, i as int),
        decreases GLYPHS - i,
    {
        let x: u32 = 40 + 40 * (i as u32);
        push_glyph(&mut svg, x, colors[i].as_str(), rotations[i].as_str(), digits[i]);
        i += 1;
        assert(svg@ =~= "<svg xmlns='http://www.w3.org/2000/svg' height='100' width='280'>\n"@
            + glyph_lines(digits@, color_texts, rotation_texts, i as int));
    }
    svg.append("</svg>");
    svg
}

/// `svg` is a picture of `answer` with the angles `rotations`: the document
/// of its five digits in five colours, each neither too dark nor too bright.
pub open spec fn is_picture_of(svg: Seq<char>, answer: u32, rotations: Seq<Seq<char>>) -> bool {
    exists|colors: Seq<Seq<char>>|
        {
            &&& colors.len() == GLYPHS
            &&& forall|i: int| 0 <= i < colors.len() ==> is_muted_color(#[trigger] colors[i])
            &&& svg == #[trigger] svg_text(five_digits(answer), colors, rotations)
        }
}

/// Lays out the picture of `answer` as an SVG document: its five digits,
/// each in a colour drawn at random and turned by the angle that
/// `rotations` gives as text.
pub fn challenge_svg(answer: u32, rotations: &Vec<String>) -> (svg: String)
    requires
        answer <= MAX_ANSWER,
        rotations@.len() == GLYPHS,
    ensures
        is_picture_of(svg@, answer, rotations@.map_values(|s: String| s@)),
{
    let digits = answer_digits(answer);
    let mut colors: Vec<String> = Vec::new();
    while colors.len() < GLYPHS
        invariant
            colors@.len() <= GLYPHS,
            forall|i: int| 0 <= i < colors@.len() ==> is_muted_color(#[trigger] colors@[i]@),
        decreases GLYPHS - colors@.len(),
    {
        colors.push(random_color());
    }
    let svg = svg_document(&digits, &colors, rotations);
    proof {
        let color_texts = colors@.map_values(|s: String| s@);
        assert forall|i: int| 0 <= i < color_texts.len() implies is_muted_color(
            #[trigger] color_texts[i],
        ) by {
            assert(is_muted_color(colors@[i]@));
        }
        assert(svg@ == svg_text(
            five_digits(answer),
            color_texts,
            rotations@.map_values(|s: String| s@),
        ));
    }
    svg
}

/// `s` without the minus sign that may lead an angle.
pub open spec fn unsigned_angle(s: Seq<char>) -> Seq<char> {
    if s.len() > 0 && s[0] == '-' {
        s.subrange(1, s.len() as int)
    } else {
        s
    }
}

/// `body` is one digit or more up to place `p`, and there it either ends
/// or goes on with a point and one digit or more.
pub open spec fn splits_at(body: Seq<char>, p: int) -> bool {
    &&& 0 < p <= body.len()
    &&& all_digits(body.subrange(0, p))
    &&& (p == body.len() || {
        &&& body[p] == '.'
        &&& p + 1 < body.len()
        &&& all_digits(body.subrange(p + 1, body.len() as int))
    })
}

/// The most characters that the text of an angle may have.
pub const ANGLE_MAX_LEN: usize = 64;

/// `s` writes an angle as a decimal numeral: an optional minus sign, one
/// digit or more, and optionally a point and one digit or more; in all at
/// most [`ANGLE_MAX_LEN`] characters.
pub open spec fn is_angle_text(s: Seq<char>) -> bool {
    s.len() <= ANGLE_MAX_LEN && exists|p: int| splits_at(unsigned_angle(s), p)
}

/// Every text of `rotations` writes an angle.
pub open spec fn all_angles(rotations: Seq<Seq<char>>) -> bool {
    forall|i: int| 0 <= i < rotations.len() ==> is_angle_text(#[trigger] rotations[i])
}

/// `svg` is a document that this library lays out: the picture of five
/// digits, in colours neither too dark nor too bright, at angles written
/// as decimal numerals.
pub open spec fn is_challenge_document(svg: Seq<char>) -> bool {
    exists|answer: u32, rotations: Seq<Seq<char>>|
        {
            &&& answer <= MAX_ANSWER
            &&& rotations.len() == GLYPHS
            &&& all_angles(rotations)
            &&& #[trigger] is_picture_of(svg, answer, rotations)
        }
}

/// The first place from `start` on where `s` holds no digit, or its length.
fn digits_end(s: &str, n: usize, start: usize) -> (end: usize)
    requires
        s.is_ascii(),
        n == s@.len(),
        start <= n,
    ensures
        start <= end <= n,
        forall|j: int| start <= j < end ==> is_digit(#[trigger] s@[j]),
        end == n || !is_digit(s@[end as int]),
{
    let mut i: usize = start;
    while i < n
        invariant
            s.is_ascii(),
            n == s@.len(),
            start <= i <= n,
            forall|j: int| start <= j < i ==> is_digit(#[trigger] s@[j]),
        decreases n - i,
    {
        let b: u8 = s.get_ascii(i);
        if !(48 <= b && b <= 57) {
            return i;
        }
        i += 1;
    }
    i
}

/// An angle splits in one place only: where its leading digits end.
proof fn lemma_angle_split_is_unique(s: Seq<char>, p: int, q: int)
    requires
        splits_at(unsigned_angle(s), q),
        0 <= p <= unsigned_angle(s).len(),
        forall|j: int| 0 <= j < p ==> is_digit(#[trigger] unsigned_angle(s)[j]),
        p == unsigned_angle(s).len() || !is_digit(unsigned_angle(s)[p]),
    ensures
        p == q,
{
    let body = unsigned_angle(s);
    if q < p {
        assert(is_digit(body[q]));
    }
    if p < q {
        assert(body.subrange(0, q)[p] == body[p]);
    }
}

/// Whether `s` writes an angle, as [`is_angle_text`] defines it.
pub fn is_angle(s: &str) -> (r: bool)
    ensures
        r == is_angle_text(s@),
{
    let ghost body = unsigned_angle(s@);
    if !s.is_ascii() {
        proof {
            let j = choose|j: int| 0 <= j < s@.len() && !('\0' <= #[trigger] s@[j] <= '\u{7f}');
            assert forall|q: int| !splits_at(body, q) by {
                if splits_at(body, q) {
                    let from = s@.len() - body.len();
                    let k = j - from;
                    assert(body[k] == s@[j]);
                    if k < q {
                        assert(body.subrange(0, q)[k] == body[k]);
                    } else if k > q {
                        assert(body.subrange(q + 1, body.len() as int)[k - q - 1] == body[k]);
                    }
                }
            }
        }
        return false;
    }
    let n: usize = s.unicode_len();
    if n > ANGLE_MAX_LEN {
        return false;
    }
    let from: usize = if n > 0 && s.get_ascii(0) == 45 {
        1
    } else {
        0
    };
    assert(body =~= s@.subrange(from as int, n as int));
    let p: usize = digits_end(s, n, from);
    proof {
        assert forall|j: int| 0 <= j < p - from implies is_digit(#[trigger] body[j]) by {
            assert(body[j] == s@[from + j]);
        }
        assert(p == n || body[p - from] == s@[p as int]);
        assert forall|q: int| splits_at(body, q) implies q == p - from by {
            lemma_angle_split_is_unique(s@, p - from, q);
        }
    }
    if p == from {
        return false;
    }
    if p == n {
        assert(splits_at(body, p - from));
        return true;
    }
    if s.get_ascii(p) != 46 {
        return false;
    }
    if p + 1 == n {
        return false;
    }
    let end: usize = digits_end(s, n, p + 1);
    proof {
        let tail = body.subrange(p - from + 1, body.len() as int);
        if end == n {
            assert forall|j: int| 0 <= j < tail.len() implies is_digit(#[trigger] tail[j]) by {
                assert(tail[j] == s@[p + 1 + j]);
            }
            assert(splits_at(body, p - from));
        } else {
            assert(tail[end - p - 1] == s@[end as int]);
        }
    }
    end == n
}

} // verus!
