//! Fonts, which stand in one stream without an index.
//!
//! A font is `|header:u8|character * 224|`, a character
//! `|width:u8|height:u8|unknown:u8|pixel:u16 * (width * height)|`. The list
//! of fonts ends with a header of 0.

use crate::canvas::{transparent, Canvas, Rgba8};
use crate::color::{is_black, lemma_black_channels, rgba16, Color, Color16};
use crate::error::MulError;
use crate::wire::{get_u16s, u16s_at};
use vstd::prelude::*;

verus! {

/// The number of characters in a font.
pub const FONT_CHARACTERS: usize = 224;

/// One character of a font.
#[derive(Clone)]
pub struct Character {
    pub width: u8,
    pub height: u8,
    pub unknown: u8,
    pub data: Vec<Color16>,
}

/// The mathematical value of a [`Character`].
pub struct CharacterView {
    pub width: u8,
    pub height: u8,
    pub unknown: u8,
    pub data: Seq<u16>,
}

impl View for Character {
    type V = CharacterView;

    open spec fn view(&self) -> CharacterView {
        CharacterView {
            width: self.width,
            height: self.height,
            unknown: self.unknown,
            data: self.data@,
        }
    }
}

/// The picture of a character: its pixels row after row, black being
/// transparent.
pub open spec fn character_picture(v: CharacterView) -> Seq<Seq<Rgba8>> {
    Seq::new(
        v.height as nat,
        |y: int|
            Seq::new(
                v.width as nat,
                |x: int|
                    if is_black(v.data[y * v.width + x]) {
                        transparent()
                    } else {
                        rgba16(v.data[y * v.width + x])
                    },
            ),
    )
}

impl Character {
    /// Whether the character can be drawn: it has a pixel for each place.
    pub open spec fn drawable(&self) -> bool {
        self.data@.len() >= self.width * self.height
    }

    /// Whether the character can be drawn.
    pub fn is_drawable(&self) -> (b: bool)
        ensures
            b == self.drawable(),
    {
        assert(self.width * self.height <= 255 * 255) by (nonlinear_arith)
            requires
                self.width <= 255,
                self.height <= 255,
        ;
        self.data.len() >= self.width as usize * self.height as usize
    }

    /// Draws the character.
    pub fn to_image(&self) -> (img: Canvas)
        requires
            self.drawable(),
        ensures
            img.wf(),
            img.spec_width() == self.width,
            img@ == character_picture(self@),
    {
        let ghost v = self@;
        assert(4 * self.width * self.height <= 4 * 255 * 255) by (nonlinear_arith)
            requires
                self.width <= 255,
                self.height <= 255,
        ;
        let mut buffer = Canvas::new(self.width as u32, self.height as u32);
        let mut y: u8 = 0;
        while y < self.height
            invariant
                y <= self.height,
                v == self@,
                self.drawable(),
                buffer.wf(),
                buffer.spec_width() == self.width,
                buffer.spec_height() == self.height,
                forall|r: int, c: int|
                    0 <= r < self.height && 0 <= c < self.width ==> (#[trigger] buffer@[r][c])
                        == if r < y {
                        character_picture(v)[r][c]
                    } else {
                        transparent()
                    },
            decreases self.height - y,
        {
            let mut x: u8 = 0;
            while x < self.width
                invariant
                    x <= self.width,
                    y < self.height,
                    v == self@,
                    self.drawable(),
                    buffer.wf(),
                    buffer.spec_width() == self.width,
                    buffer.spec_height() == self.height,
                    forall|r: int, c: int|
                        0 <= r < self.height && 0 <= c < self.width ==> (#[trigger] buffer@[r][c])
                            == if r < y || (r == y && c < x) {
                            character_picture(v)[r][c]
                        } else {
                            transparent()
                        },
                decreases self.width - x,
            {
                assert(0 <= y * self.width && y * self.width + x < self.width * self.height
                    && self.width * self.height <= 255 * 255) by (nonlinear_arith)
                    requires
                        0 <= x < self.width,
                        0 <= y < self.height,
                        self.width <= 255,
                        self.height <= 255,
                ;
                let pixel: u16 = self.data[(y as usize * self.width as usize) + x as usize];
                let (r, g, b, a) = pixel.to_rgba();
                proof {
                    lemma_black_channels(pixel);
                }
                let ghost before = buffer@;
                if r != 0 || g != 0 || b != 0 {
                    buffer.put_pixel(x as u32, y as u32, (r, g, b, a));
                }
                assert forall|r: int, c: int| 0 <= r < self.height && 0 <= c < self.width implies (
                #[trigger] buffer@[r][c]) == if r < y || (r == y && c < x + 1) {
                    character_picture(v)[r][c]
                } else {
                    transparent()
                } by {
                    if r != y {
                        assert(buffer@[r] == before[r]);
                    }
                    assert(before[r][c] == if r < y || (r == y && c < x) {
                        character_picture(v)[r][c]
                    } else {
                        transparent()
                    });
                }
                x += 1;
            }
            y += 1;
        }
        assert(buffer@ =~~= character_picture(v));
        buffer
    }
}

/// A font: 224 characters.
#[derive(Clone)]
pub struct Font {
    pub header: u8,
    pub characters: Vec<Character>,
}

/// The mathematical value of a [`Font`].
pub struct FontView {
    pub header: u8,
    pub characters: Seq<CharacterView>,
}

/// The mathematical value of a list of characters.
pub open spec fn characters_view(chars: Seq<Character>) -> Seq<CharacterView> {
    Seq::new(chars.len(), |k: int| chars[k]@)
}

impl View for Font {
    type V = FontView;

    open spec fn view(&self) -> FontView {
        FontView { header: self.header, characters: characters_view(self.characters@) }
    }
}

/// The mathematical value of a list of fonts.
pub open spec fn fonts_view(fonts: Seq<Font>) -> Seq<FontView> {
    Seq::new(fonts.len(), |k: int| fonts[k]@)
}

/// The character that stands at byte `at`, and the byte after it.
pub open spec fn parse_character(s: Seq<u8>, at: int) -> Result<(CharacterView, int), MulError> {
    if at + 3 > s.len() || at + 3 + 2 * (s[at] * s[at + 1]) > s.len() {
        Err(MulError::Truncated)
    } else {
        Ok(
            (
                CharacterView {
                    width: s[at],
                    height: s[at + 1],
                    unknown: s[at + 2],
                    data: u16s_at(s, at + 3, (s[at] * s[at + 1]) as nat),
                },
                at + 3 + 2 * (s[at] * s[at + 1]),
            ),
        )
    }
}

/// The first `n` characters from byte `at` on, and the byte after them.
pub open spec fn parse_characters(s: Seq<u8>, at: int, n: int) -> Result<
    (Seq<CharacterView>, int),
    MulError,
>
    decreases n,
{
    if n <= 0 {
        Ok((Seq::<CharacterView>::empty(), at))
    } else {
        match parse_characters(s, at, n - 1) {
            Err(e) => Err(e),
            Ok((chars, next)) => match parse_character(s, next) {
                Err(e) => Err(e),
                Ok((c, end)) => Ok((chars.push(c), end)),
            },
        }
    }
}

/// The font that stands at byte `at`, and the byte after it.
pub open spec fn parse_font(s: Seq<u8>, at: int) -> Result<(FontView, int), MulError> {
    if at + 1 > s.len() {
        Err(MulError::Truncated)
    } else {
        match parse_characters(s, at + 1, 224) {
            Err(e) => Err(e),
            Ok((characters, end)) => Ok((FontView { header: s[at], characters }, end)),
        }
    }
}

/// A result with `head` put before the fonts that it holds.
pub open spec fn after_fonts(head: Seq<FontView>, rest: Result<(Seq<FontView>, int), MulError>) -> Result<
    (Seq<FontView>, int),
    MulError,
> {
    match rest {
        Ok((tail, end)) => Ok((head + tail, end)),
        Err(e) => Err(e),
    }
}

/// The fonts that stand from byte `at` on, up to a header of 0, and the
/// byte after that header. `fuel` bounds the number of fonts, and the
/// length of the stream is always enough.
pub open spec fn parse_fonts(s: Seq<u8>, at: int, fuel: nat) -> Result<(Seq<FontView>, int), MulError>
    decreases fuel,
{
    if at < 0 || at + 1 > s.len() || fuel == 0 {
        Err(MulError::Truncated)
    } else if s[at] == 0 {
        Ok((Seq::<FontView>::empty(), at + 1))
    } else {
        match parse_font(s, at) {
            Err(e) => Err(e),
            Ok((font, next)) => after_fonts(seq![font], parse_fonts(s, next, (fuel - 1) as nat)),
        }
    }
}

/// Once a character has failed, taking more characters gives the same
/// failure.
pub proof fn lemma_parse_characters_failed(s: Seq<u8>, at: int, n: int, m: int)
    requires
        0 <= n <= m,
        parse_characters(s, at, n) is Err,
    ensures
        parse_characters(s, at, m) == parse_characters(s, at, n),
    decreases m - n,
{
    if n < m {
        lemma_parse_characters_failed(s, at, n, m - 1);
    }
}

/// Reads fonts out of a stream, one after the other.
pub struct FontReader {
    data: Vec<u8>,
    pos: usize,
}

impl FontReader {
    /// The bytes of the stream.
    pub closed spec fn bytes(&self) -> Seq<u8> {
        self.data@
    }

    /// The byte at which the next read begins.
    pub closed spec fn position(&self) -> int {
        self.pos as int
    }

    /// A reader at the start of the given stream.
    pub fn from_readable(data_reader: Vec<u8>) -> (reader: FontReader)
        ensures
            reader.bytes() == data_reader@,
            reader.position() == 0,
    {
        FontReader { data: data_reader, pos: 0 }
    }

    /// Reads the character that stands at byte `at`.
    fn read_character(&self, at: usize) -> (r: Result<(Character, usize), MulError>)
        ensures
            match r {
                Ok((c, end)) => parse_character(self.bytes(), at as int) == Ok::<
                    (CharacterView, int),
                    MulError,
                >((c@, end as int)) && at + 3 <= end <= self.bytes().len(),
                Err(e) => parse_character(self.bytes(), at as int) == Err::<
                    (CharacterView, int),
                    MulError,
                >(e),
            },
    {
        let len: usize = self.data.len();
        if at > len || len - at < 3 {
            return Err(MulError::Truncated);
        }
        let width: u8 = self.data[at];
        let height: u8 = self.data[at + 1];
        let unknown: u8 = self.data[at + 2];
        assert(width * height <= 255 * 255) by (nonlinear_arith)
            requires
                width <= 255,
                height <= 255,
        ;
        let n: usize = width as usize * height as usize;
        if (len - at - 3) / 2 < n {
            return Err(MulError::Truncated);
        }
        let pixels: Vec<u16> = get_u16s(self.data.as_slice(), at + 3, n);
        Ok((Character { width, height, unknown, data: pixels }, at + 3 + 2 * n))
    }

    /// Reads the font that stands at byte `at`: the font, and the byte
    /// after it.
    pub fn read_font(&self, at: usize) -> (r: Result<(Font, usize), MulError>)
        ensures
            match r {
                Ok((font, end)) => parse_font(self.bytes(), at as int) == Ok::<
                    (FontView, int),
                    MulError,
                >((font@, end as int)) && at < end <= self.bytes().len(),
                Err(e) => parse_font(self.bytes(), at as int) == Err::<(FontView, int), MulError>(
                    e,
                ),
            },
    {
        let len: usize = self.data.len();
        if at >= len {
            return Err(MulError::Truncated);
        }
        let header: u8 = self.data[at];
        let mut chars: Vec<Character> = Vec::new();
        let mut pos: usize = at + 1;
        let mut k: usize = 0;
        assert(characters_view(chars@) =~= Seq::<CharacterView>::empty());
        while k < 224
            invariant
                k <= 224,
                at < len,
                len == self.data.len(),
                at < pos <= len,
                parse_characters(self.bytes(), at + 1, k as int) == Ok::<
                    (Seq<CharacterView>, int),
                    MulError,
                >((characters_view(chars@), pos as int)),
            decreases 224 - k,
        {
            match self.read_character(pos) {
                Err(e) => {
                    proof {
                        lemma_parse_characters_failed(self.bytes(), at + 1, k + 1, 224);
                    }
                    return Err(e);
                },
                Ok((c, end)) => {
                    proof {
                        assert(characters_view(chars@.push(c)) =~= characters_view(chars@).push(
                            c@,
                        ));
                    }
                    chars.push(c);
                    pos = end;
                },
            }
            k += 1;
        }
        Ok((Font { header, characters: chars }, pos))
    }

    /// Reads fonts from where the reader stands up to a header of 0, and
    /// leaves the reader after that header. Where the stream ends before
    /// such a header, or within a font, the result is `Truncated` and the
    /// reader stays where it was.
    pub fn read_fonts(&mut self) -> (r: Result<Vec<Font>, MulError>)
        ensures
            final(self).bytes() == old(self).bytes(),
            match r {
                Ok(fonts) => parse_fonts(
                    old(self).bytes(),
                    old(self).position(),
                    old(self).bytes().len(),
                ) == Ok::<(Seq<FontView>, int), MulError>(
                    (fonts_view(fonts@), final(self).position()),
                ),
                Err(e) => e == MulError::Truncated && parse_fonts(
                    old(self).bytes(),
                    old(self).position(),
                    old(self).bytes().len(),
                ) is Err && final(self).position() == old(self).position(),
            },
    {
        let len: usize = self.data.len();
        let mut out: Vec<Font> = Vec::new();
        let mut pos: usize = self.pos;
        let ghost mut fuel: nat = len as nat;
        assert(fonts_view(out@) =~= Seq::<FontView>::empty());
        loop
            invariant
                *self == *old(self),
                len == self.data.len(),
                pos <= len || out@.len() == 0,
                fuel + pos >= len,
                fuel <= len,
                parse_fonts(self.bytes(), self.position(), len as nat) == after_fonts(
                    fonts_view(out@),
                    parse_fonts(self.bytes(), pos as int, fuel),
                ),
            decreases len - pos,
        {
            if pos >= len {
                return Err(MulError::Truncated);
            }
            let header: u8 = self.data[pos];
            if header == 0 {
                assert(fonts_view(out@) + Seq::<FontView>::empty() =~= fonts_view(out@));
                self.pos = pos + 1;
                return Ok(out);
            }
            match self.read_font(pos) {
                Err(e) => {
                    proof {
                        lemma_parse_font_error(self.bytes(), pos as int);
                    }
                    return Err(MulError::Truncated);
                },
                Ok((font, end)) => {
                    proof {
                        let head = fonts_view(out@);
                        let rest = parse_fonts(self.bytes(), end as int, (fuel - 1) as nat);
                        assert(fonts_view(out@.push(font)) =~= head.push(font@));
                        if rest is Ok {
                            assert(head + (seq![font@] + rest->Ok_0.0) =~= head.push(font@)
                                + rest->Ok_0.0);
                        }
                        fuel = (fuel - 1) as nat;
                    }
                    out.push(font);
                    pos = end;
                },
            }
        }
    }
}

/// A font fails only by ending too early.
pub proof fn lemma_parse_font_error(s: Seq<u8>, at: int)
    ensures
        parse_font(s, at) is Err ==> parse_font(s, at) == Err::<(FontView, int), MulError>(
            MulError::Truncated,
        ),
{
    lemma_parse_characters_error(s, at + 1, 224);
}

/// Characters fail only by ending too early.
pub proof fn lemma_parse_characters_error(s: Seq<u8>, at: int, n: int)
    ensures
        parse_characters(s, at, n) is Err ==> parse_characters(s, at, n) == Err::<
            (Seq<CharacterView>, int),
            MulError,
        >(MulError::Truncated),
    decreases n,
{
    if n > 0 {
        lemma_parse_characters_error(s, at, n - 1);
    }
}

} // verus!
