//! Setting a line of text with a font, to look at the font.

use vstd::prelude::*;
use vstd::string::StrSliceExecFns;
use crate::bitmap::{Bitmap, Picture, Pixel};
use crate::font::{CharacterSprite, FontIntermediate};
use crate::sources::{sprite_picture, SourceError, Sources};

verus! {

/// Why a line of text could not be set.
#[derive(Debug, Clone, Copy, PartialEq, Eq, Structural)]
pub enum RenderError {
    /// The font has no sprite for a character of the text.
    MissingGlyph,
    /// The text is wider than can be counted in 32 bits.
    TextTooWide,
    /// The line height of the font is negative, the base line does not lie
    /// in the line, or the image has more pixels than memory can hold.
    InvalidMeasure,
    /// The pixels of a sprite could not be had.
    Source(SourceError),
}

/// The colour of the base line.
pub open spec fn base_line_colour() -> Pixel {
    (128u8, 128u8, 128u8, 255u8)
}

/// The position of the first sprite of the glyph with the code `code`, or
/// the number of sprites when there is none.
pub open spec fn sprite_index(chars: Seq<CharacterSprite>, code: u32) -> int
    decreases chars.len(),
{
    if chars.len() == 0 || chars[0].char_code == code {
        0
    } else {
        1 + sprite_index(chars.skip(1), code)
    }
}

proof fn lemma_sprite_index(chars: Seq<CharacterSprite>, code: u32, i: int)
    requires
        0 <= i <= chars.len(),
        forall|j: int| 0 <= j < i ==> chars[j].char_code != code,
        i < chars.len() ==> chars[i].char_code == code,
    ensures
        sprite_index(chars, code) == i,
    decreases chars.len(),
{
    if chars.len() == 0 || chars[0].char_code == code {
    } else {
        let rest = chars.skip(1);
        assert forall|j: int| 0 <= j < i - 1 implies rest[j].char_code != code by {
            assert(rest[j] == chars[j + 1]);
        }
        lemma_sprite_index(rest, code, i - 1);
    }
}

/// Where the pen stands, and how far to the right a sprite has reached.
pub struct Pen {
    pub x: int,
    pub reach: int,
}

/// The pen after the first `n` characters of the text were measured, or
/// why the first character that cannot be measured cannot.
pub open spec fn measured(chars: Seq<CharacterSprite>, text: Seq<char>, n: nat) -> Result<
    Pen,
    RenderError,
>
    decreases n,
{
    if n == 0 {
        Ok(Pen { x: 0, reach: 0 })
    } else {
        match measured(chars, text, (n - 1) as nat) {
            Err(e) => Err(e),
            Ok(pen) => {
                let at = sprite_index(chars, text[n - 1] as u32);
                if at >= chars.len() {
                    Err(RenderError::MissingGlyph)
                } else {
                    let glyph = chars[at];
                    let right = pen.x + glyph.x_offset + glyph.sprite.width;
                    let x = pen.x + glyph.x_advance;
                    if right < i32::MIN || right > i32::MAX || x < i32::MIN || x > i32::MAX {
                        Err(RenderError::TextTooWide)
                    } else {
                        Ok(
                            Pen {
                                x,
                                reach: if right > pen.reach {
                                    right
                                } else {
                                    pen.reach
                                },
                            },
                        )
                    }
                }
            },
        }
    }
}

/// The picture after the base line was drawn in the columns before `n`:
/// two pixels of every three in the row `base`.
pub open spec fn with_base_line(picture: Picture, base: int, n: nat) -> Picture
    decreases n,
{
    if n == 0 {
        picture
    } else {
        let before = with_base_line(picture, base, (n - 1) as nat);
        if (n - 1) % 3 != 2 {
            before.with_pixel(n - 1, base, base_line_colour())
        } else {
            before
        }
    }
}

/// The picture after the sprites of the first `n` characters of the text
/// were blended onto it, or why the first sprite that cannot be cannot.
/// The text is one that can be measured.
pub open spec fn written(
    chars: Seq<CharacterSprite>,
    srcs: Sources,
    text: Seq<char>,
    picture: Picture,
    n: nat,
) -> Result<Picture, RenderError>
    decreases n,
{
    if n == 0 {
        Ok(picture)
    } else {
        match written(chars, srcs, text, picture, (n - 1) as nat) {
            Err(e) => Err(e),
            Ok(before) => {
                let glyph = chars[sprite_index(chars, text[n - 1] as u32)];
                let pen = measured(chars, text, (n - 1) as nat)->Ok_0;
                match sprite_picture(glyph.sprite, srcs) {
                    Err(e) => Err(RenderError::Source(e)),
                    Ok(sprite) => Ok(
                        before.overlaid(sprite, pen.x + glyph.x_offset, glyph.y_offset as int),
                    ),
                }
            },
        }
    }
}

/// The image of a line of text, or why there is none.
pub open spec fn rendered(font: FontIntermediate, srcs: Sources, text: Seq<char>) -> Result<
    Picture,
    RenderError,
> {
    match measured(font.chars@, text, text.len()) {
        Err(e) => Err(e),
        Ok(pen) => if font.line_height < 0 || 4 * (pen.reach * font.line_height) > isize::MAX
            || (pen.reach > 0 && !(0 <= font.base < font.line_height)) {
            Err(RenderError::InvalidMeasure)
        } else {
            written(
                font.chars@,
                srcs,
                text,
                with_base_line(
                    Picture::blank((pen.reach, font.line_height as int)),
                    font.base as int,
                    pen.reach as nat,
                ),
                text.len(),
            )
        },
    }
}

proof fn lemma_measure_refusal_stays(chars: Seq<CharacterSprite>, text: Seq<char>, k: nat, n: nat)
    requires
        k <= n,
        measured(chars, text, k) is Err,
    ensures
        measured(chars, text, n) == measured(chars, text, k),
    decreases n,
{
    if k < n {
        lemma_measure_refusal_stays(chars, text, k, (n - 1) as nat);
    }
}

proof fn lemma_measure_holds_before(chars: Seq<CharacterSprite>, text: Seq<char>, k: nat, n: nat)
    requires
        k <= n,
        measured(chars, text, n) is Ok,
    ensures
        measured(chars, text, k) is Ok,
        k < n ==> sprite_index(chars, text[k as int] as u32) < chars.len(),
        0 <= measured(chars, text, k)->Ok_0.reach <= measured(chars, text, n)->Ok_0.reach,
        i32::MIN <= measured(chars, text, k)->Ok_0.x <= i32::MAX,
    decreases n,
{
    if k < n {
        lemma_measure_holds_before(chars, text, k, (n - 1) as nat);
        if k == n - 1 {
        }
    } else {
        lemma_reach_is_not_negative(chars, text, n);
    }
}

proof fn lemma_reach_is_not_negative(chars: Seq<CharacterSprite>, text: Seq<char>, n: nat)
    requires
        measured(chars, text, n) is Ok,
    ensures
        0 <= measured(chars, text, n)->Ok_0.reach <= i32::MAX,
        i32::MIN <= measured(chars, text, n)->Ok_0.x <= i32::MAX,
    decreases n,
{
    if n > 0 {
        lemma_reach_is_not_negative(chars, text, (n - 1) as nat);
    }
}

proof fn lemma_writing_refusal_stays(
    chars: Seq<CharacterSprite>,
    srcs: Sources,
    text: Seq<char>,
    picture: Picture,
    k: nat,
    n: nat,
)
    requires
        k <= n,
        written(chars, srcs, text, picture, k) is Err,
    ensures
        written(chars, srcs, text, picture, n) == written(chars, srcs, text, picture, k),
    decreases n,
{
    if k < n {
        lemma_writing_refusal_stays(chars, srcs, text, picture, k, (n - 1) as nat);
    }
}

impl FontIntermediate {
    /// The position of the first sprite of the glyph with the code `code`,
    /// or the number of sprites when there is none.
    pub fn find_sprite(&self, code: u32) -> (at: usize)
        ensures
            at == sprite_index(self.chars@, code),
            at <= self.chars@.len(),
    {
        let mut at: usize = 0;
        while at < self.chars.len() && self.chars[at].char_code != code
            invariant
                at <= self.chars@.len(),
                forall|j: int| 0 <= j < at ==> self.chars@[j].char_code != code,
            decreases self.chars.len() - at,
        {
            at += 1;
        }
        proof {
            lemma_sprite_index(self.chars@, code, at as int);
        }
        at
    }

    /// Sets a line of text: an image as high as a line of the font and as
    /// wide as the text, with a dotted base line, onto which the sprite of
    /// every character is blended where the font says it goes.
    pub fn render_text(&self, text: &str, srcs: &Sources) -> (image: Result<
        Bitmap,
        RenderError,
    >)
        ensures
            image matches Ok(i) ==> rendered(*self, *srcs, text@) == Ok::<Picture, RenderError>(i@),
            image matches Err(e) ==> rendered(*self, *srcs, text@) == Err::<Picture, RenderError>(
                e,
            ),
    {
        let len: usize = text.unicode_len();
        let mut curr_x: i32 = 0;
        let mut max_x: i32 = 0;
        let mut count: usize = 0;
        for ch in iter: text.chars()
            invariant
                count == iter.index(),
                iter.seq() == text@,
                len == text@.len(),
                0 <= max_x,
                measured(self.chars@, text@, count as nat) == Ok::<Pen, RenderError>(
                    Pen { x: curr_x as int, reach: max_x as int },
                ),
        {
            let at = self.find_sprite(ch as u32);
            if at >= self.chars.len() {
                proof {
                    lemma_measure_refusal_stays(self.chars@, text@, (count + 1) as nat, len as nat);
                }
                return Err(RenderError::MissingGlyph);
            }
            let char_info = self.chars[at];
            let right: i64 = curr_x as i64 + char_info.x_offset as i64 + char_info.sprite.width as i64;
            let next: i64 = curr_x as i64 + char_info.x_advance as i64;
            if right < i32::MIN as i64 || right > i32::MAX as i64 || next < i32::MIN as i64 || next
                > i32::MAX as i64 {
                proof {
                    lemma_measure_refusal_stays(self.chars@, text@, (count + 1) as nat, len as nat);
                }
                return Err(RenderError::TextTooWide);
            }
            if right > max_x as i64 {
                max_x = right as i32;
            }
            curr_x = next as i32;
            count += 1;
        }
        let ghost pen = Pen { x: curr_x as int, reach: max_x as int };
        assert(0 <= max_x * self.line_height <= 0x7FFF_FFFF * 0x7FFF_FFFF || self.line_height < 0)
            by (nonlinear_arith)
            requires
                0 <= max_x <= 0x7FFF_FFFF,
                self.line_height <= 0x7FFF_FFFF,
        ;
        if self.line_height < 0 || (max_x as u64) * (self.line_height as u64) > (isize::MAX as u64)
            / 4 || (max_x > 0 && (self.base < 0 || self.base >= self.line_height)) {
            return Err(RenderError::InvalidMeasure);
        }
        let mut buffer = Bitmap::blank(max_x as u32, self.line_height as u32);
        let ghost empty = buffer@;
        let mut x: u32 = 0;
        while x < max_x as u32
            invariant
                x <= max_x,
                0 <= max_x,
                max_x > 0 ==> 0 <= self.base < self.line_height,
                buffer@.size == (max_x as int, self.line_height as int),
                buffer@ == with_base_line(empty, self.base as int, x as nat),
            decreases max_x - x,
        {
            if x % 3 != 2 {
                buffer.put_pixel(x, self.base as u32, (128, 128, 128, 255));
            }
            x += 1;
        }
        let ghost lined = buffer@;
        let mut drawn: usize = 0;
        curr_x = 0;
        for ch in iter: text.chars()
            invariant
                drawn == iter.index(),
                iter.seq() == text@,
                len == text@.len(),
                measured(self.chars@, text@, len as nat) is Ok,
                measured(self.chars@, text@, len as nat)->Ok_0.reach == max_x,
                self.line_height >= 0,
                4 * (max_x * self.line_height) <= isize::MAX,
                max_x > 0 ==> 0 <= self.base < self.line_height,
                lined == with_base_line(
                    Picture::blank((max_x as int, self.line_height as int)),
                    self.base as int,
                    max_x as nat,
                ),
                measured(self.chars@, text@, drawn as nat)->Ok_0.x == curr_x,
                buffer@.size == lined.size,
                written(self.chars@, *srcs, text@, lined, drawn as nat) == Ok::<
                    Picture,
                    RenderError,
                >(buffer@),
        {
            proof {
                lemma_measure_holds_before(self.chars@, text@, drawn as nat, len as nat);
                lemma_measure_holds_before(self.chars@, text@, (drawn + 1) as nat, len as nat);
            }
            let at = self.find_sprite(ch as u32);
            let char_info = self.chars[at];
            let x: i64 = curr_x as i64 + char_info.x_offset as i64;
            let y: i64 = char_info.y_offset as i64;
            let ghost before = buffer@;
            match char_info.sprite.get_image(srcs) {
                Err(e) => {
                    proof {
                        lemma_writing_refusal_stays(
                            self.chars@,
                            *srcs,
                            text@,
                            lined,
                            (drawn + 1) as nat,
                            len as nat,
                        );
                    }
                    return Err(RenderError::Source(e));
                },
                Ok(character_img) => {
                    buffer.overlay(&character_img, x, y);
                    proof {
                        let after = before.overlaid(character_img@, x as int, y as int);
                        assert(buffer@.pixels =~= after.pixels);
                    }
                },
            }
            curr_x = curr_x + char_info.x_advance;
            drawn += 1;
        }
        Ok(buffer)
    }
}

} // verus!
