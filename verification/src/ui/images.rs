//! Pictures in the terminal, for the filmstrip of the trim screen.
//!
//! Kitty and iTerm2 show pictures themselves. Everywhere else a thumbnail is
//! shown as a few coloured blocks.

use vstd::prelude::*;
use crate::number::{dec, show};
use crate::text::{chars_of, join2, join3, joined, same, slice_text, texts};
use crate::ui::theme::Color;

verus! {

/// How the terminal shows pictures.
#[derive(Debug, Clone, Copy, PartialEq, Eq, Structural)]
pub enum ImageBackend {
    /// The Kitty graphics protocol.
    Kitty,
    /// Inline images of iTerm2.
    ITerm2,
    /// Coloured blocks.
    Blocks,
}

/// The value of a variable: the first with its name, or nothing.
pub open spec fn variable(vars: Seq<(String, String)>, name: Seq<char>) -> Seq<char>
    decreases vars.len(),
{
    if vars.len() == 0 {
        Seq::empty()
    } else if vars[0].0@ == name {
        vars[0].1@
    } else {
        variable(vars.skip(1), name)
    }
}

/// How a terminal with the given environment shows pictures.
pub open spec fn backend(vars: Seq<(String, String)>) -> ImageBackend {
    if variable(vars, "KITTY_WINDOW_ID"@).len() > 0 {
        ImageBackend::Kitty
    } else if variable(vars, "TERM_PROGRAM"@) == "iTerm.app"@ {
        ImageBackend::ITerm2
    } else {
        ImageBackend::Blocks
    }
}

/// Looks up a variable.
#[verifier::loop_isolation(false)]
fn get_variable<'a>(vars: &'a [(String, String)], name: &str) -> (r: &'a str)
    ensures
        r@ == variable(vars@, name@),
{
    let mut i: usize = 0;
    assert(vars@.skip(0) =~= vars@);
    while i < vars.len()
        invariant
            i <= vars@.len(),
            variable(vars@, name@) == variable(vars@.skip(i as int), name@),
        decreases vars@.len() - i,
    {
        assert(vars@.skip(i as int)[0] == vars@[i as int]);
        assert(vars@.skip(i as int).skip(1) =~= vars@.skip(i + 1));
        if same(vars[i].0.as_str(), name) {
            return vars[i].1.as_str();
        }
        i = i + 1;
    }
    proof {
        reveal_strlit("");
    }
    assert(""@ =~= Seq::<char>::empty());
    ""
}

/// Says how a terminal with the given environment shows pictures.
pub fn detect_with(vars: &[(String, String)]) -> (r: ImageBackend)
    ensures
        r == backend(vars@),
{
    if !get_variable(vars, "KITTY_WINDOW_ID").is_empty() {
        ImageBackend::Kitty
    } else if same(get_variable(vars, "TERM_PROGRAM"), "iTerm.app") {
        ImageBackend::ITerm2
    } else {
        ImageBackend::Blocks
    }
}

// ---------------------------------------------------------------------------
// Base64
// ---------------------------------------------------------------------------

/// The character of a six-bit number.
pub open spec fn letter(n: int) -> char {
    if n < 26 {
        (65 + n) as char
    } else if n < 52 {
        (97 + (n - 26)) as char
    } else if n < 62 {
        (48 + (n - 52)) as char
    } else if n == 62 {
        '+'
    } else {
        '/'
    }
}

/// Up to three bytes as a number of 24 bits, with zeros for missing ones.
pub open spec fn bits(b: Seq<u8>) -> int {
    b[0] * 65536 + (if b.len() > 1 {
        b[1] * 256
    } else {
        0
    }) + (if b.len() > 2 {
        b[2] as int
    } else {
        0
    })
}

/// The four characters of up to three bytes.
pub open spec fn quad(b: Seq<u8>) -> Seq<char> {
    let n = bits(b);
    seq![
        letter(n / 262144),
        letter(n / 4096 % 64),
        if b.len() > 1 {
            letter(n / 64 % 64)
        } else {
            '='
        },
        if b.len() > 2 {
            letter(n % 64)
        } else {
            '='
        },
    ]
}

/// Bytes in standard base64, with padding.
pub open spec fn base64(b: Seq<u8>) -> Seq<char>
    decreases b.len(),
{
    if b.len() == 0 {
        Seq::empty()
    } else if b.len() <= 3 {
        quad(b)
    } else {
        quad(b.take(3)) + base64(b.skip(3))
    }
}

/// Gives the character of a six-bit number.
fn letter_of(n: u32) -> (r: char)
    requires
        n < 64,
    ensures
        r == letter(n as int),
{
    if n < 26 {
        (65 + n as u8) as char
    } else if n < 52 {
        (97 + (n as u8 - 26)) as char
    } else if n < 62 {
        (48 + (n as u8 - 52)) as char
    } else if n == 62 {
        '+'
    } else {
        '/'
    }
}

/// Encodes bytes in standard base64.
pub fn base64_encode(bytes: &[u8]) -> (r: String)
    ensures
        r@ == base64(bytes@),
{
    let mut out = String::new();
    let mut i: usize = 0;
    assert(bytes@.skip(0) =~= bytes@);
    while i < bytes.len()
        invariant
            i <= bytes@.len(),
            base64(bytes@) == out@ + base64(bytes@.skip(i as int)),
        decreases bytes@.len() - i,
    {
        let left: usize = bytes.len() - i;
        let ghost rest = bytes@.skip(i as int);
        let ghost part = if left <= 3 {
            rest
        } else {
            rest.take(3)
        };
        let first: u32 = bytes[i] as u32 * 65536;
        let second: u32 = if left > 1 {
            bytes[i + 1] as u32 * 256
        } else {
            0
        };
        let third: u32 = if left > 2 {
            bytes[i + 2] as u32
        } else {
            0
        };
        let n: u32 = first + second + third;
        assert(n == bits(part));
        let ghost before = out@;
        out.push(letter_of(n / 262144));
        out.push(letter_of(n / 4096 % 64));
        out.push(
            if left > 1 {
                letter_of(n / 64 % 64)
            } else {
                '='
            },
        );
        out.push(
            if left > 2 {
                letter_of(n % 64)
            } else {
                '='
            },
        );
        assert(out@ =~= before + quad(part));
        let step: usize = if left < 3 {
            left
        } else {
            3
        };
        proof {
            assert(bytes@.skip(i + step) =~= rest.skip(step as int));
            if left <= 3 {
                assert(bytes@.skip(i + step) =~= Seq::<u8>::empty());
                assert(base64(bytes@.skip(i + step)) =~= Seq::<char>::empty());
            }
            assert(base64(bytes@) =~= out@ + base64(bytes@.skip(i + step)));
        }
        i = i + step;
    }
    assert(base64(bytes@.skip(i as int)) =~= Seq::<char>::empty());
    assert(out@ =~= base64(bytes@));
    out
}

/// The six-bit number of a character.
pub open spec fn letter_value(c: char) -> Option<int> {
    let n = c as int;
    if 65 <= n <= 90 {
        Some(n - 65)
    } else if 97 <= n <= 122 {
        Some(n - 97 + 26)
    } else if 48 <= n <= 57 {
        Some(n - 48 + 52)
    } else if c == '+' {
        Some(62)
    } else if c == '/' {
        Some(63)
    } else {
        None
    }
}

/// The bytes that a text in base64 stands for.
pub open spec fn unbase64(s: Seq<char>) -> Option<Seq<u8>>
    decreases s.len(),
{
    if s.len() == 0 {
        Some(Seq::empty())
    } else if s.len() < 4 {
        None
    } else {
        let rest = s.skip(4);
        match (letter_value(s[0]), letter_value(s[1])) {
            (Some(a), Some(b)) => {
                let high = a * 262144 + b * 4096;
                if s[2] == '=' && s[3] == '=' && rest.len() == 0 {
                    Some(seq![(high / 65536) as u8])
                } else {
                    match letter_value(s[2]) {
                        Some(c) => if s[3] == '=' && rest.len() == 0 {
                            let n = high + c * 64;
                            Some(seq![(n / 65536) as u8, (n / 256 % 256) as u8])
                        } else {
                            match (letter_value(s[3]), unbase64(rest)) {
                                (Some(d), Some(more)) => {
                                    let n = high + c * 64 + d;
                                    Some(
                                        seq![
                                            (n / 65536) as u8,
                                            (n / 256 % 256) as u8,
                                            (n % 256) as u8,
                                        ] + more,
                                    )
                                },
                                _ => None,
                            }
                        },
                        None => None,
                    }
                }
            },
            _ => None,
        }
    }
}

proof fn lemma_letter(n: int)
    requires
        0 <= n < 64,
    ensures
        letter_value(letter(n)) == Some(n),
        letter(n) != '=',
{
}

/// The six-bit numbers of three bytes, and the bytes again.
proof fn lemma_bits(b: Seq<u8>)
    requires
        1 <= b.len() <= 3,
    ensures
        ({
            let n = bits(b);
            &&& 0 <= n / 262144 < 64
            &&& n == (n / 262144) * 262144 + (n / 4096 % 64) * 4096 + (n / 64 % 64) * 64 + n % 64
            &&& n / 65536 == b[0]
            &&& b.len() > 1 ==> n / 256 % 256 == b[1]
            &&& b.len() > 2 ==> n % 256 == b[2]
            &&& b.len() == 1 ==> n / 64 % 64 == 0 && n % 64 == 0
            &&& b.len() == 2 ==> n % 64 == 0
        }),
{
    let x = b[0] as u32;
    let y = if b.len() > 1 {
        b[1] as u32
    } else {
        0
    };
    let z = if b.len() > 2 {
        b[2] as u32
    } else {
        0
    };
    lemma_three(x, y, z);
}

proof fn lemma_three(x: u32, y: u32, z: u32)
    by (bit_vector)
    requires
        x < 256,
        y < 256,
        z < 256,
    ensures
        (x * 65536 + y * 256 + z) / 262144 < 64,
        x * 65536 + y * 256 + z == ((x * 65536 + y * 256 + z) / 262144) * 262144 + ((x * 65536 + y
            * 256 + z) / 4096 % 64) * 4096 + ((x * 65536 + y * 256 + z) / 64 % 64) * 64 + (x * 65536
            + y * 256 + z) % 64,
        (x * 65536 + y * 256 + z) / 65536 == x,
        (x * 65536 + y * 256 + z) / 256 % 256 == y,
        (x * 65536 + y * 256 + z) % 256 == z,
        y == 0 && z == 0 ==> (x * 65536 + y * 256 + z) / 64 % 64 == 0 && (x * 65536 + y * 256 + z)
            % 64 == 0,
        z == 0 ==> (x * 65536 + y * 256 + z) % 64 == 0,
{
}

/// Four characters read back as the bytes they stand for.
proof fn lemma_quad(b: Seq<u8>, rest: Seq<char>)
    requires
        1 <= b.len() <= 3,
        b.len() < 3 ==> rest.len() == 0,
        unbase64(rest) is Some,
    ensures
        unbase64(quad(b) + rest) == Some(b + unbase64(rest)->0),
{
    let n = bits(b);
    let s = quad(b) + rest;
    assert(s.skip(4) =~= rest);
    lemma_bits(b);
    lemma_letter(n / 262144);
    lemma_letter(n / 4096 % 64);
    lemma_letter(n / 64 % 64);
    lemma_letter(n % 64);
    let more = unbase64(rest)->0;
    if b.len() == 1 {
        assert(seq![b[0]] =~= b + more);
    } else if b.len() == 2 {
        assert(seq![b[0], b[1]] =~= b + more);
    } else {
        assert(seq![b[0], b[1], b[2]] + more =~= b + more);
    }
}

/// What was encoded can be read back.
pub proof fn law_base64_round_trip(b: Seq<u8>)
    ensures
        unbase64(base64(b)) == Some(b),
    decreases b.len(),
{
    if b.len() == 0 {
        assert(b =~= Seq::<u8>::empty());
    } else if b.len() <= 3 {
        lemma_quad(b, Seq::empty());
        assert(quad(b) + Seq::<char>::empty() =~= quad(b));
        assert(b + Seq::<u8>::empty() =~= b);
    } else {
        law_base64_round_trip(b.skip(3));
        lemma_quad(b.take(3), base64(b.skip(3)));
        assert(b.take(3) + b.skip(3) =~= b);
    }
}

// ---------------------------------------------------------------------------
// Escape sequences
// ---------------------------------------------------------------------------

/// How much of a picture one escape sequence of the Kitty protocol carries.
pub const KITTY_CHUNK: usize = 4096;

/// The pieces that a text is sent in.
pub open spec fn chunks(s: Seq<char>) -> Seq<Seq<char>>
    decreases s.len(),
{
    if s.len() == 0 {
        Seq::empty()
    } else if s.len() <= KITTY_CHUNK {
        seq![s]
    } else {
        seq![s.take(KITTY_CHUNK as int)] + chunks(s.skip(KITTY_CHUNK as int))
    }
}

/// One escape sequence: the first one gives the size in cells, and all but the
/// last announce more.
pub open spec fn kitty_piece(piece: Seq<char>, first: bool, last: bool, size: Seq<char>) -> Seq<
    char,
> {
    let mode = if last {
        "0"@
    } else {
        "1"@
    };
    (if first {
        "\x1b_G"@ + size + ",m="@
    } else {
        "\x1b_Gm="@
    }) + mode + ";"@ + piece + "\x1b\\"@
}

/// The first escape sequences of a picture.
pub open spec fn kitty_pieces(pieces: Seq<Seq<char>>, n: int, size: Seq<char>) -> Seq<char>
    decreases n,
{
    if n <= 0 {
        Seq::empty()
    } else {
        kitty_pieces(pieces, n - 1, size) + kitty_piece(
            pieces[n - 1],
            n == 1,
            n == pieces.len(),
            size,
        )
    }
}

/// The size that a picture is shown in, in cells.
pub open spec fn kitty_size(cols: nat, rows: nat) -> Seq<char> {
    "a=T,f=100,c="@ + dec(cols) + ",r="@ + dec(rows)
}

/// The escape sequences that show a picture in a Kitty terminal.
pub open spec fn kitty(jpeg: Seq<u8>, cols: nat, rows: nat) -> Seq<char> {
    let pieces = chunks(base64(jpeg));
    kitty_pieces(pieces, pieces.len() as int, kitty_size(cols, rows))
}

/// Splits a text into the pieces that it is sent in.
fn split_chunks(s: &str) -> (r: Vec<String>)
    ensures
        texts(r@) == chunks(s@),
{
    let x = chars_of(s);
    let total: usize = x.len();
    let mut out: Vec<String> = Vec::new();
    let mut i: usize = 0;
    assert(s@.skip(0) =~= s@);
    assert(texts(out@) =~= Seq::<Seq<char>>::empty());
    while i < total
        invariant
            x@ == s@,
            i <= total,
            total == x@.len(),
            chunks(s@) =~= texts(out@) + chunks(s@.skip(i as int)),
        decreases x@.len() - i,
    {
        let left: usize = total - i;
        let step: usize = if left <= KITTY_CHUNK {
            left
        } else {
            KITTY_CHUNK
        };
        let piece = slice_text(&x, i, i + step);
        let ghost rest = s@.skip(i as int);
        let ghost held = texts(out@);
        let ghost text = piece@;
        out.push(piece);
        proof {
            assert(texts(out@) =~= held.push(text));
            assert(s@.skip(i + step) =~= rest.skip(step as int));
            if left <= KITTY_CHUNK {
                assert(text =~= rest);
                assert(s@.skip(i + step) =~= Seq::<char>::empty());
                assert(chunks(s@.skip(i + step)) =~= Seq::<Seq<char>>::empty());
            } else {
                assert(text =~= rest.take(KITTY_CHUNK as int));
            }
            assert(chunks(s@) =~= texts(out@) + chunks(s@.skip(i + step)));
        }
        i = i + step;
    }
    assert(chunks(s@.skip(i as int)) =~= Seq::<Seq<char>>::empty());
    assert(texts(out@) =~= chunks(s@));
    out
}

/// Makes the escape sequences that show a picture in a Kitty terminal.
pub fn kitty_payload(jpeg: &[u8], cols: u32, rows: u32) -> (r: String)
    ensures
        r@ == kitty(jpeg@, cols as nat, rows as nat),
{
    let pieces = split_chunks(base64_encode(jpeg).as_str());
    let ghost all = chunks(base64(jpeg@));
    let left = join2("a=T,f=100,c=", show(cols as u128).as_str());
    let size = join3(left.as_str(), ",r=", show(rows as u128).as_str());
    let ghost cells = kitty_size(cols as nat, rows as nat);
    assert(size@ =~= cells);
    let mut out = String::new();
    let mut i: usize = 0;
    while i < pieces.len()
        invariant
            i <= pieces@.len(),
            all == texts(pieces@),
            size@ == cells,
            out@ == kitty_pieces(all, i as int, cells),
        decreases pieces@.len() - i,
    {
        let piece = pieces[i].as_str();
        assert(piece@ == all[i as int]);
        let ghost before = out@;
        let mode = if i + 1 == pieces.len() {
            "0"
        } else {
            "1"
        };
        let mut one = if i == 0 {
            join3("\x1b_G", size.as_str(), ",m=")
        } else {
            join2("\x1b_Gm=", "")
        };
        proof {
            reveal_strlit("");
            assert("\x1b_Gm="@ + ""@ =~= "\x1b_Gm="@);
        }
        one.append(mode);
        one.append(";");
        one.append(piece);
        one.append("\x1b\\");
        assert(one@ =~= kitty_piece(all[i as int], i == 0, i + 1 == all.len(), cells));
        out.append(one.as_str());
        i = i + 1;
    }
    out
}

/// The escape sequence that shows a picture in iTerm2.
pub open spec fn iterm2(jpeg: Seq<u8>, cols: nat) -> Seq<char> {
    "\x1b]1337;File=inline=1,width="@ + dec(cols) + ":"@ + base64(jpeg) + "\x07"@
}

/// Makes the escape sequence that shows a picture in iTerm2.
pub fn iterm2_payload(jpeg: &[u8], cols: u32) -> (r: String)
    ensures
        r@ == iterm2(jpeg@, cols as nat),
{
    let mut out = join3(
        "\x1b]1337;File=inline=1,width=",
        show(cols as u128).as_str(),
        ":",
    );
    out.append(base64_encode(jpeg).as_str());
    out.append("\x07");
    out
}

/// A picture is sent whole and in order, and no piece is larger than the
/// protocol allows.
pub proof fn law_chunks_carry_all(s: Seq<char>)
    ensures
        joined(chunks(s), Seq::empty()) == s,
        forall|i: int| 0 <= i < chunks(s).len() ==> 0 < (#[trigger] chunks(s)[i]).len() <= KITTY_CHUNK,
    decreases s.len(),
{
    if s.len() > KITTY_CHUNK {
        let head = s.take(KITTY_CHUNK as int);
        let tail = s.skip(KITTY_CHUNK as int);
        law_chunks_carry_all(tail);
        lemma_joined_front(head, chunks(tail));
        assert(head + tail =~= s);
        assert forall|i: int| 0 <= i < chunks(s).len() implies 0 < (#[trigger] chunks(s)[i]).len()
            <= KITTY_CHUNK by {
            if i > 0 {
                assert(chunks(s)[i] == chunks(tail)[i - 1]);
            }
        }
    } else if s.len() > 0 {
        lemma_joined_front(s, Seq::empty());
        assert(seq![s] + Seq::<Seq<char>>::empty() =~= seq![s]);
        assert(s + Seq::<char>::empty() =~= s);
    } else {
        assert(s =~= Seq::<char>::empty());
    }
}

proof fn lemma_joined_front(head: Seq<char>, parts: Seq<Seq<char>>)
    ensures
        joined(seq![head] + parts, Seq::empty()) == head + joined(
            parts,
            Seq::empty(),
        ),
    decreases parts.len(),
{
    let all = seq![head] + parts;
    if parts.len() == 0 {
        assert(all =~= seq![head]);
        reveal_with_fuel(joined, 2);
        assert(all.drop_last() =~= Seq::<Seq<char>>::empty());
        assert(head + Seq::<char>::empty() =~= head);
        assert(joined(all, Seq::empty()) =~= head);
    } else {
        lemma_joined_front(head, parts.drop_last());
        assert(all.drop_last() =~= seq![head] + parts.drop_last());
        assert(all.last() == parts.last());
        assert(joined(all, Seq::empty()) =~= head + joined(
            parts,
            Seq::empty(),
        ));
    }
}

// ---------------------------------------------------------------------------
// Coloured blocks
// ---------------------------------------------------------------------------

/// Columns of cells per thumbnail.
pub const THUMB_COLS: usize = 12;

/// Rows of cells per thumbnail.
pub const THUMB_ROWS: usize = 3;

/// A picture: three bytes per pixel, row after row.
#[derive(Debug, Clone)]
pub struct Pixels {
    pub width: u32,
    pub height: u32,
    pub data: Vec<u8>,
}

impl Pixels {
    /// A picture has at least one pixel, and three bytes for each.
    pub open spec fn wf(&self) -> bool {
        &&& self.width >= 1
        &&& self.height >= 1
        &&& self.data@.len() == 3 * (self.width as nat * self.height as nat)
    }
}

/// The picture that a file with a given path and bytes holds: its width, its
/// height, and three bytes per pixel.
pub uninterp spec fn picture(path: Seq<char>, bytes: Seq<u8>) -> Option<(u32, u32, Seq<u8>)>;

/// Decodes a picture with the `image` crate: `load_from_memory_with_format`, in
/// the format that the path's extension names, and three bytes per pixel. What
/// comes out is only named; it has at least one pixel. Nothing when the format
/// is unknown or the bytes are damaged.
#[verifier::external_body]
fn read_picture(path: &str, bytes: &[u8]) -> (r: Option<Pixels>)
    ensures
        match r {
            Some(p) => picture(path@, bytes@) == Some((p.width, p.height, p.data@)) && p.wf(),
            None => picture(path@, bytes@) is None,
        },
{
    let format = image::ImageFormat::from_path(path).ok()?;
    let rgb = image::load_from_memory_with_format(bytes, format).ok()?.to_rgb8();
    Some(Pixels { width: rgb.width(), height: rgb.height(), data: rgb.into_raw() })
}

/// A picture of a given width and height, scaled to fit a number of pixels in
/// width and height.
pub uninterp spec fn scaled(
    width: u32,
    height: u32,
    data: Seq<u8>,
    most_width: u32,
    most_height: u32,
) -> (u32, u32, Seq<u8>);

/// How many pixels side by side may become one.
pub const MOST_REDUCTION: u32 = 3300;

/// `DynamicImage::thumbnail` of the `image` crate scales a picture to fit. What
/// comes out is only named; it has at least one pixel. It adds up the pixels
/// that become one in 32 bits, so there must not be too many of them.
#[verifier::external_body]
fn scale(p: &Pixels, width: u32, height: u32) -> (r: Pixels)
    requires
        p.wf(),
        1 <= width <= 4096,
        1 <= height <= 4096,
        p.width <= MOST_REDUCTION * width,
        p.height <= MOST_REDUCTION * height,
    ensures
        r.wf(),
        (r.width, r.height, r.data@) == scaled(p.width, p.height, p.data@, width, height),
{
    let whole = image::RgbImage::from_raw(p.width, p.height, p.data.clone());
    let whole = image::DynamicImage::ImageRgb8(whole.unwrap_or_default());
    let small = whole.thumbnail(width, height).into_rgb8();
    Pixels { width: small.width(), height: small.height(), data: small.into_raw() }
}

/// One colour component of a pixel.
pub open spec fn component(data: Seq<u8>, width: int, x: int, y: int, c: int) -> nat {
    data[(y * width + x) * 3 + c] as nat
}

/// The sum of a component over a stretch of a row.
pub open spec fn stretch_sum(data: Seq<u8>, width: int, y: int, from: int, to: int, c: int) -> nat
    decreases to - from,
{
    if to <= from {
        0
    } else {
        stretch_sum(data, width, y, from, to - 1, c) + component(data, width, to - 1, y, c)
    }
}

/// The sum of a component over a rectangle.
pub open spec fn box_sum(
    data: Seq<u8>,
    width: int,
    rows: (int, int),
    cols: (int, int),
    c: int,
) -> nat
    decreases rows.1 - rows.0,
{
    if rows.1 <= rows.0 {
        0
    } else {
        box_sum(data, width, (rows.0, rows.1 - 1), cols, c) + stretch_sum(
            data,
            width,
            rows.1 - 1,
            cols.0,
            cols.1,
            c,
        )
    }
}

/// The pixels of one of `parts` equal parts of a length; at least one.
pub open spec fn span_of(i: int, parts: int, length: int) -> (int, int) {
    let from = i * length / parts;
    let to = (i + 1) * length / parts;
    (
        from,
        if to > from {
            to
        } else {
            from + 1
        },
    )
}

/// The mean colour of one cell of a thumbnail, each component rounded down.
pub open spec fn cell_color(data: Seq<u8>, width: int, height: int, row: int, col: int) -> Color {
    let rows = span_of(row, THUMB_ROWS as int, height);
    let cols = span_of(col, THUMB_COLS as int, width);
    let n = ((rows.1 - rows.0) * (cols.1 - cols.0)) as nat;
    Color::Rgb(
        (box_sum(data, width, rows, cols, 0) / n) as u8,
        (box_sum(data, width, rows, cols, 1) / n) as u8,
        (box_sum(data, width, rows, cols, 2) / n) as u8,
    )
}

/// A thumbnail as rows of coloured cells.
pub open spec fn cells_of(data: Seq<u8>, width: int, height: int) -> Seq<Seq<Color>> {
    Seq::new(
        THUMB_ROWS as nat,
        |row: int|
            Seq::new(THUMB_COLS as nat, |col: int| cell_color(data, width, height, row, col)),
    )
}

/// A thumbnail that shows nothing.
pub open spec fn blank_cells() -> Seq<Seq<Color>> {
    Seq::new(THUMB_ROWS as nat, |row: int| Seq::new(THUMB_COLS as nat, |col: int| Color::Reset))
}

/// The views of rows of cells.
pub open spec fn cell_rows(v: Seq<Vec<Color>>) -> Seq<Seq<Color>> {
    v.map_values(|r: Vec<Color>| r@)
}

proof fn lemma_span(i: int, parts: int, length: int)
    requires
        0 <= i < parts,
        length >= 1,
    ensures
        0 <= span_of(i, parts, length).0 < span_of(i, parts, length).1 <= length,
{
    let from = i * length / parts;
    let to = (i + 1) * length / parts;
    assert(i * length <= (parts - 1) * length) by (nonlinear_arith)
        requires
            i <= parts - 1,
            length >= 1,
    ;
    assert(0 <= i * length) by (nonlinear_arith)
        requires
            i >= 0,
            length >= 1,
    ;
    assert((parts - 1) * length < parts * length) by (nonlinear_arith)
        requires
            length >= 1,
    ;
    assert((i + 1) * length <= parts * length) by (nonlinear_arith)
        requires
            i + 1 <= parts,
            length >= 1,
    ;
    assert(0 <= from < length) by (nonlinear_arith)
        requires
            from == i * length / parts,
            0 <= i * length < parts * length,
            parts > 0,
    ;
    assert(to <= length) by (nonlinear_arith)
        requires
            to == (i + 1) * length / parts,
            (i + 1) * length <= parts * length,
            parts > 0,
    ;
}

/// Where a part of a length begins and ends.
fn span(i: usize, parts: usize, length: u32) -> (r: (u32, u32))
    requires
        i < parts <= 64,
        length >= 1,
    ensures
        (r.0 as int, r.1 as int) == span_of(i as int, parts as int, length as int),
        r.0 < r.1 <= length,
{
    proof {
        lemma_span(i as int, parts as int, length as int);
        assert(i * length <= 64 * length) by (nonlinear_arith)
            requires
                i <= 64,
                length >= 1,
        ;
        assert((i + 1) * length <= 64 * length) by (nonlinear_arith)
            requires
                i + 1 <= 64,
                length >= 1,
        ;
    }
    let from: u64 = i as u64 * length as u64 / parts as u64;
    let to: u64 = (i as u64 + 1) * length as u64 / parts as u64;
    (
        from as u32,
        if to > from {
            to as u32
        } else {
            (from + 1) as u32
        },
    )
}

proof fn lemma_pixel(p: Pixels, x: int, y: int)
    requires
        p.wf(),
        0 <= x < p.width,
        0 <= y < p.height,
    ensures
        0 <= (y * p.width + x) * 3,
        (y * p.width + x) * 3 + 2 < p.data@.len(),
{
    assert(y * p.width + x < p.width * p.height) by (nonlinear_arith)
        requires
            0 <= x < p.width,
            0 <= y < p.height,
    ;
    assert(0 <= y * p.width) by (nonlinear_arith)
        requires
            0 <= y,
            p.width >= 0,
    ;
}

/// Adds up a component over a stretch of a row.
fn add_stretch(p: &Pixels, y: u32, from: u32, to: u32, c: usize) -> (r: u128)
    requires
        p.wf(),
        y < p.height,
        from <= to <= p.width,
        c < 3,
    ensures
        r == stretch_sum(p.data@, p.width as int, y as int, from as int, to as int, c as int),
        r <= 255 * (to - from),
{
    let len: usize = p.data.len();
    let mut sum: u128 = 0;
    let mut x: u32 = from;
    while x < to
        invariant
            p.wf(),
            len == p.data@.len(),
            y < p.height,
            from <= x <= to <= p.width,
            c < 3,
            sum == stretch_sum(p.data@, p.width as int, y as int, from as int, x as int, c as int),
            sum <= 255 * (x - from),
        decreases to - x,
    {
        proof {
            lemma_pixel(*p, x as int, y as int);
            assert(0 <= y * p.width <= (y * p.width + x) * 3) by (nonlinear_arith)
                requires
                    y >= 0,
                    p.width >= 0,
                    x >= 0,
            ;
        }
        let row: usize = y as usize * p.width as usize;
        let at: usize = (row + x as usize) * 3 + c;
        sum = sum + p.data[at] as u128;
        x = x + 1;
    }
    sum
}

/// The mean of a component over a rectangle, rounded down.
fn mean(p: &Pixels, rows: (u32, u32), cols: (u32, u32), c: usize) -> (r: u8)
    requires
        p.wf(),
        rows.0 < rows.1 <= p.height,
        cols.0 < cols.1 <= p.width,
        c < 3,
    ensures
        r == box_sum(
            p.data@,
            p.width as int,
            (rows.0 as int, rows.1 as int),
            (cols.0 as int, cols.1 as int),
            c as int,
        ) / (((rows.1 - rows.0) * (cols.1 - cols.0)) as nat),
{
    let ghost across = (cols.0 as int, cols.1 as int);
    let wide: u128 = (cols.1 - cols.0) as u128;
    let mut sum: u128 = 0;
    let mut y: u32 = rows.0;
    assert(0 * wide == 0) by (nonlinear_arith);
    while y < rows.1
        invariant
            p.wf(),
            rows.0 <= y <= rows.1 <= p.height,
            cols.0 < cols.1 <= p.width,
            c < 3,
            wide == cols.1 - cols.0,
            across == (cols.0 as int, cols.1 as int),
            sum == box_sum(
                p.data@,
                p.width as int,
                (rows.0 as int, y as int),
                across,
                c as int,
            ),
            sum <= 255 * ((y - rows.0) * wide),
        decreases rows.1 - y,
    {
        proof {
            assert((y + 1 - rows.0) * wide == (y - rows.0) * wide + wide) by (nonlinear_arith);
            assert((y - rows.0) * wide <= u32::MAX * u32::MAX) by (nonlinear_arith)
                requires
                    0 <= y - rows.0 <= u32::MAX,
                    0 <= wide <= u32::MAX,
            ;
        }
        sum = sum + add_stretch(p, y, cols.0, cols.1, c);
        y = y + 1;
    }
    assert((rows.1 - rows.0) * wide <= u32::MAX * u32::MAX) by (nonlinear_arith)
        requires
            0 <= rows.1 - rows.0 <= u32::MAX,
            0 <= wide <= u32::MAX,
    ;
    let n: u128 = (rows.1 - rows.0) as u128 * wide;
    proof {
        assert(n >= 1) by (nonlinear_arith)
            requires
                n == (rows.1 - rows.0) * wide,
                rows.1 - rows.0 >= 1,
                wide >= 1,
        ;
        assert(sum / n <= 255) by (nonlinear_arith)
            requires
                sum <= 255 * n,
                n >= 1,
        ;
    }
    (sum / n) as u8
}

/// The mean colour of one cell.
fn cell(p: &Pixels, row: usize, col: usize) -> (r: Color)
    requires
        p.wf(),
        row < THUMB_ROWS,
        col < THUMB_COLS,
    ensures
        r == cell_color(p.data@, p.width as int, p.height as int, row as int, col as int),
{
    let rows = span(row, THUMB_ROWS, p.height);
    let cols = span(col, THUMB_COLS, p.width);
    Color::Rgb(mean(p, rows, cols, 0), mean(p, rows, cols, 1), mean(p, rows, cols, 2))
}

/// Shows a picture as rows of coloured cells.
pub fn blocks_of(p: &Pixels) -> (r: Vec<Vec<Color>>)
    requires
        p.wf(),
    ensures
        cell_rows(r@) == cells_of(p.data@, p.width as int, p.height as int),
{
    let ghost all = cells_of(p.data@, p.width as int, p.height as int);
    let mut out: Vec<Vec<Color>> = Vec::new();
    let mut row: usize = 0;
    while row < THUMB_ROWS
        invariant
            p.wf(),
            row <= THUMB_ROWS,
            all == cells_of(p.data@, p.width as int, p.height as int),
            cell_rows(out@) =~= all.take(row as int),
        decreases THUMB_ROWS - row,
    {
        let mut cells: Vec<Color> = Vec::new();
        let mut col: usize = 0;
        while col < THUMB_COLS
            invariant
                p.wf(),
                row < THUMB_ROWS,
                col <= THUMB_COLS,
                all == cells_of(p.data@, p.width as int, p.height as int),
                cells@ =~= all[row as int].take(col as int),
            decreases THUMB_COLS - col,
        {
            cells.push(cell(p, row, col));
            col = col + 1;
        }
        let ghost before = cell_rows(out@);
        let ghost made = cells@;
        assert(made =~= all[row as int]);
        out.push(cells);
        assert(cell_rows(out@) =~= before.push(made));
        row = row + 1;
    }
    assert(cell_rows(out@) =~= all);
    out
}

/// Rows of cells that show nothing.
pub fn blank() -> (r: Vec<Vec<Color>>)
    ensures
        cell_rows(r@) == blank_cells(),
{
    let mut out: Vec<Vec<Color>> = Vec::new();
    let mut row: usize = 0;
    while row < THUMB_ROWS
        invariant
            row <= THUMB_ROWS,
            cell_rows(out@) =~= blank_cells().take(row as int),
        decreases THUMB_ROWS - row,
    {
        let mut cells: Vec<Color> = Vec::new();
        let mut col: usize = 0;
        while col < THUMB_COLS
            invariant
                col <= THUMB_COLS,
                cells@ =~= Seq::new(col as nat, |i: int| Color::Reset),
            decreases THUMB_COLS - col,
        {
            cells.push(Color::Reset);
            col = col + 1;
        }
        let ghost before = cell_rows(out@);
        let ghost made = cells@;
        assert(made =~= blank_cells()[row as int]);
        out.push(cells);
        assert(cell_rows(out@) =~= before.push(made));
        row = row + 1;
    }
    assert(cell_rows(out@) =~= blank_cells());
    out
}

/// The size in pixels that a thumbnail is scaled down to.
pub const SMALL_WIDTH: u32 = 96;

/// Its height.
pub const SMALL_HEIGHT: u32 = 48;

/// Whether a picture of a given size can be scaled down to a thumbnail.
pub open spec fn reducible(width: u32, height: u32) -> bool {
    width <= MOST_REDUCTION * SMALL_WIDTH && height <= MOST_REDUCTION * SMALL_HEIGHT
}

/// The cells that a thumbnail file with the given bytes is shown as: blank ones
/// when they could not be read or decoded, or the picture is too large to scale
/// down.
pub open spec fn shown_cells(path: Seq<char>, bytes: Option<Seq<u8>>) -> Seq<Seq<Color>> {
    match bytes {
        Some(b) => match picture(path, b) {
            Some((width, height, data)) => if reducible(width, height) {
                let small = scaled(width, height, data, SMALL_WIDTH, SMALL_HEIGHT);
                cells_of(small.2, small.0 as int, small.1 as int)
            } else {
                blank_cells()
            },
            None => blank_cells(),
        },
        None => blank_cells(),
    }
}

/// Shows a thumbnail file as rows of coloured cells: blank ones when its
/// bytes could not be read or decoded, or its picture is too large to scale down.
pub fn blocks_for(path: &str, bytes: Option<&[u8]>) -> (r: Vec<Vec<Color>>)
    ensures
        cell_rows(r@) == shown_cells(
            path@,
            match bytes {
                Some(b) => Some(b@),
                None => None,
            },
        ),
{
    match bytes {
        Some(b) => match read_picture(path, b) {
            Some(p) => if p.width <= MOST_REDUCTION * SMALL_WIDTH && p.height <= MOST_REDUCTION
                * SMALL_HEIGHT {
                blocks_of(&scale(&p, SMALL_WIDTH, SMALL_HEIGHT))
            } else {
                blank()
            },
            None => blank(),
        },
        None => blank(),
    }
}

/// One column of a row of thumbnails: a gap, or a cell's colour.
#[derive(Debug, Clone, Copy, PartialEq, Eq, Structural)]
pub enum BlockCell {
    Gap,
    Filled(Color),
}

/// The cells of one thumbnail in a row, and the gap before it.
pub open spec fn thumb_cells(thumb: Seq<Seq<Color>>, row: int, first: bool) -> Seq<BlockCell> {
    let cells = if 0 <= row < thumb.len() {
        thumb[row]
    } else {
        Seq::empty()
    };
    let n = if cells.len() < THUMB_COLS {
        cells.len() as int
    } else {
        THUMB_COLS as int
    };
    (if first {
        Seq::empty()
    } else {
        seq![BlockCell::Gap]
    }) + cells.take(n).map_values(|c: Color| BlockCell::Filled(c))
}

/// Thumbnails, each as its rows of cells.
pub open spec fn thumb_rows(v: Seq<Vec<Vec<Color>>>) -> Seq<Seq<Seq<Color>>> {
    v.map_values(|t: Vec<Vec<Color>>| cell_rows(t@))
}

/// One row of thumbnails next to each other, with a gap between them.
pub open spec fn strip_cells(thumbs: Seq<Seq<Seq<Color>>>, row: int) -> Seq<BlockCell>
    decreases thumbs.len(),
{
    if thumbs.len() == 0 {
        Seq::empty()
    } else {
        strip_cells(thumbs.drop_last(), row) + thumb_cells(thumbs.last(), row, thumbs.len() == 1)
    }
}

/// Lays out one row of thumbnails next to each other.
pub fn block_line(thumbs: &[Vec<Vec<Color>>], row: usize) -> (r: Vec<BlockCell>)
    ensures
        r@ == strip_cells(thumb_rows(thumbs@), row as int),
{
    let ghost all = thumb_rows(thumbs@);
    let mut out: Vec<BlockCell> = Vec::new();
    let mut i: usize = 0;
    assert(all.take(0) =~= Seq::<Seq<Seq<Color>>>::empty());
    while i < thumbs.len()
        invariant
            i <= thumbs@.len(),
            all == thumb_rows(thumbs@),
            out@ == strip_cells(all.take(i as int), row as int),
        decreases thumbs@.len() - i,
    {
        let ghost before = out@;
        let thumb = &thumbs[i];
        proof {
            assert(all.take(i + 1).drop_last() =~= all.take(i as int));
            assert(all.take(i + 1).last() == cell_rows(thumbs@[i as int]@));
        }
        if i > 0 {
            out.push(BlockCell::Gap);
        }
        let ghost start = out@;
        if row < thumb.len() {
            let cells = &thumb[row];
            let ghost shown = cells@.map_values(|c: Color| BlockCell::Filled(c));
            let mut j: usize = 0;
            while j < cells.len() && j < THUMB_COLS
                invariant
                    j <= cells@.len(),
                    j <= THUMB_COLS,
                    shown == cells@.map_values(|c: Color| BlockCell::Filled(c)),
                    out@ =~= start + shown.take(j as int),
                decreases cells@.len() - j,
            {
                out.push(BlockCell::Filled(cells[j]));
                j = j + 1;
            }
            assert(cells@.take(j as int).map_values(|c: Color| BlockCell::Filled(c))
                =~= shown.take(j as int));
        }
        assert(out@ =~= before + thumb_cells(cell_rows(thumb@), row as int, i == 0));
        i = i + 1;
    }
    assert(all.take(i as int) =~= all);
    out
}

/// The cells of a thumbnail share out its pixels: they begin with the first and
/// end with the last, and each goes on where the one before it ended.
pub proof fn law_cells_share_out_the_pixels(i: int, parts: int, length: int)
    requires
        0 <= i < parts,
        parts <= length,
    ensures
        span_of(0, parts, length).0 == 0,
        span_of(parts - 1, parts, length).1 == length,
        i + 1 < parts ==> span_of(i, parts, length).1 == span_of(i + 1, parts, length).0,
        0 <= span_of(i, parts, length).0 < span_of(i, parts, length).1 <= length,
{
    lemma_cut(0, parts, length);
    lemma_cut(i, parts, length);
    lemma_cut(parts - 1, parts, length);
    if i + 1 < parts {
        lemma_cut(i + 1, parts, length);
    }
    assert(0 * length / parts == 0) by (nonlinear_arith)
        requires
            parts > 0,
    ;
    assert(parts * length / parts == length) by (nonlinear_arith)
        requires
            parts > 0,
    ;
}

proof fn lemma_cut(i: int, parts: int, length: int)
    requires
        0 <= i < parts,
        parts <= length,
    ensures
        0 <= i * length / parts < (i + 1) * length / parts <= length,
{
    let a = i * length;
    let b = (i + 1) * length;
    assert(b == a + length && a >= 0 && b <= parts * length) by (nonlinear_arith)
        requires
            a == i * length,
            b == (i + 1) * length,
            0 <= i < parts,
            0 < length,
    ;
    assert(0 <= a / parts < b / parts <= length) by (nonlinear_arith)
        requires
            b == a + length,
            a >= 0,
            0 < parts <= length,
            b <= parts * length,
    ;
}

/// A cell is no darker than the darkest of its pixels and no lighter than the
/// lightest: where all are between two values, so is their mean.
pub proof fn law_cells_show_means(
    data: Seq<u8>,
    width: int,
    rows: (int, int),
    cols: (int, int),
    c: int,
    low: nat,
    high: nat,
)
    requires
        rows.0 < rows.1,
        cols.0 < cols.1,
        forall|x: int, y: int|
            rows.0 <= y < rows.1 && cols.0 <= x < cols.1 ==> low <= #[trigger] component(
                data,
                width,
                x,
                y,
                c,
            ) <= high,
    ensures
        low <= box_sum(data, width, rows, cols, c) / (((rows.1 - rows.0) * (cols.1
            - cols.0)) as nat) <= high,
{
    lemma_box_between(data, width, rows, cols, c, low, high);
    let n = (rows.1 - rows.0) * (cols.1 - cols.0);
    let s = box_sum(data, width, rows, cols, c) as int;
    assert(n > 0) by (nonlinear_arith)
        requires
            n == (rows.1 - rows.0) * (cols.1 - cols.0),
            rows.0 < rows.1,
            cols.0 < cols.1,
    ;
    assert(low <= s / n <= high) by (nonlinear_arith)
        requires
            n > 0,
            low * n <= s <= high * n,
    ;
}

proof fn lemma_stretch_between(
    data: Seq<u8>,
    width: int,
    y: int,
    from: int,
    to: int,
    c: int,
    low: nat,
    high: nat,
)
    requires
        from <= to,
        forall|x: int| from <= x < to ==> low <= #[trigger] component(data, width, x, y, c) <= high,
    ensures
        low * (to - from) <= stretch_sum(data, width, y, from, to, c) <= high * (to - from),
    decreases to - from,
{
    if from < to {
        lemma_stretch_between(data, width, y, from, to - 1, c, low, high);
        assert(low <= component(data, width, to - 1, y, c) <= high);
        assert(low * (to - from) == low * (to - 1 - from) + low) by (nonlinear_arith);
        assert(high * (to - from) == high * (to - 1 - from) + high) by (nonlinear_arith);
    } else {
        assert(low * (to - from) == 0 && high * (to - from) == 0) by (nonlinear_arith)
            requires
                to == from,
        ;
    }
}

proof fn lemma_box_between(
    data: Seq<u8>,
    width: int,
    rows: (int, int),
    cols: (int, int),
    c: int,
    low: nat,
    high: nat,
)
    requires
        rows.0 <= rows.1,
        cols.0 <= cols.1,
        forall|x: int, y: int|
            rows.0 <= y < rows.1 && cols.0 <= x < cols.1 ==> low <= #[trigger] component(
                data,
                width,
                x,
                y,
                c,
            ) <= high,
    ensures
        low * ((rows.1 - rows.0) * (cols.1 - cols.0)) <= box_sum(data, width, rows, cols, c) <= high
            * ((rows.1 - rows.0) * (cols.1 - cols.0)),
    decreases rows.1 - rows.0,
{
    let h = rows.1 - rows.0;
    let w = cols.1 - cols.0;
    if rows.0 < rows.1 {
        lemma_box_between(data, width, (rows.0, rows.1 - 1), cols, c, low, high);
        lemma_stretch_between(data, width, rows.1 - 1, cols.0, cols.1, c, low, high);
        assert(low * (h * w) == low * ((h - 1) * w) + low * w) by (nonlinear_arith);
        assert(high * (h * w) == high * ((h - 1) * w) + high * w) by (nonlinear_arith);
    } else {
        assert(low * (h * w) == 0 && high * (h * w) == 0) by (nonlinear_arith)
            requires
                h == 0,
        ;
    }
}

/// The strip shows the thumbnails side by side, a gap between each two: a cell
/// of a thumbnail stands as many columns in as there are cells and gaps before
/// it.
pub proof fn law_thumbnails_stand_side_by_side(
    thumbs: Seq<Seq<Seq<Color>>>,
    row: int,
    k: int,
    col: int,
)
    requires
        0 <= k < thumbs.len(),
        0 <= col < 12,
        forall|i: int|
            0 <= i < thumbs.len() ==> 0 <= row < (#[trigger] thumbs[i]).len()
                && thumbs[i][row].len() == 12,
    ensures
        strip_cells(thumbs, row).len() == 13 * thumbs.len() - 1,
        strip_cells(thumbs, row)[13 * k + col] == BlockCell::Filled(thumbs[k][row][col]),
        k > 0 ==> strip_cells(thumbs, row)[13 * k - 1] == BlockCell::Gap,
    decreases thumbs.len(),
{
    let front = thumbs.drop_last();
    let before = strip_cells(front, row);
    let own = thumb_cells(thumbs.last(), row, thumbs.len() == 1);
    let all = strip_cells(thumbs, row);
    assert(all == before + own);
    assert(thumbs.last() == thumbs[thumbs.len() - 1]);
    let cells = thumbs.last()[row];
    assert(cells.take(12) =~= cells);
    if front.len() > 0 {
        assert forall|i: int| 0 <= i < front.len() implies 0 <= row < (#[trigger] front[i]).len()
            && front[i][row].len() == 12 by {
            assert(front[i] == thumbs[i]);
        }
        law_thumbnails_stand_side_by_side(
            front,
            row,
            if k < front.len() {
                k
            } else {
                0
            },
            col,
        );
        assert(own.len() == 13);
        if k < front.len() {
            assert(all[13 * k + col] == before[13 * k + col]);
            if k > 0 {
                assert(all[13 * k - 1] == before[13 * k - 1]);
            }
        } else {
            assert(all[13 * k + col] == own[col + 1]);
            assert(all[13 * k - 1] == own[0]);
        }
    } else {
        assert(before.len() == 0);
        assert(own.len() == 12);
        assert(all[col] == own[col]);
    }
}

} // verus!
