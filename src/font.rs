//! Bitmap fonts: the metrics file that says where each glyph lies in the
//! font's texture, and the layout of a text as one quad per glyph.
use vstd::prelude::*;
use crate::image::{
    NEWLINE, next_byte, is_decimal, decimal_value, find_byte, parse_decimal,
    copy_range,
};

verus! {

/// A sub-rectangle of a texture, origin at the texture's bottom left.
#[derive(Clone, Copy, PartialEq, Eq, Debug, Structural)]
pub struct Sprite {
    x: u32,
    y: u32,
    width: u32,
    height: u32,
}

impl View for Sprite {
    type V = (u32, u32, u32, u32);

    closed spec fn view(&self) -> (u32, u32, u32, u32) {
        (self.x, self.y, self.width, self.height)
    }
}

impl Sprite {
    pub fn new(x: u32, y: u32, width: u32, height: u32) -> (r: Sprite)
        ensures
            r@ == (x, y, width, height),
    {
        Sprite { x, y, width, height }
    }

    pub fn x(&self) -> (r: u32)
        ensures
            r == self@.0,
    {
        self.x
    }

    pub fn y(&self) -> (r: u32)
        ensures
            r == self@.1,
    {
        self.y
    }

    pub fn width(&self) -> (r: u32)
        ensures
            r == self@.2,
    {
        self.width
    }

    pub fn height(&self) -> (r: u32)
        ensures
            r == self@.3,
    {
        self.height
    }
}

/// Carriage return, dropped before a line feed.
pub const CARRIAGE_RETURN: u8 = 13;

/// Separates a key from its value.
pub const EQUALS: u8 = 61;

/// Number of glyph ids.
pub const GLYPH_IDS: usize = 256;

/// Why a metrics file was refused.
#[derive(Clone, Copy, PartialEq, Eq, Debug, Structural)]
pub enum FntError {
    /// A field of a glyph line without `=`.
    MissingValue,
    /// A glyph field whose value is not an unsigned decimal number (an
    /// optional `+`, then digits) of its range (0 to 255 for `id`, 32 bits for
    /// the others).
    BadNumber,
}

/// The fields that a glyph line sets: id, x, y, width, height.
pub type GlyphFields = (u8, u32, u32, u32, u32);

/// ASCII white space: tab, line feed, vertical tab, form feed, carriage
/// return and space.
pub open spec fn is_space(c: u8) -> bool {
    (9 <= c <= 13) || c == 32
}

/// The first index at or after `i` that holds white space, or `s.len()`.
pub open spec fn next_space(s: Seq<u8>, i: int) -> int
    decreases s.len() - i,
{
    if i < 0 || i >= s.len() {
        s.len() as int
    } else if is_space(s[i]) {
        i
    } else {
        next_space(s, i + 1)
    }
}

/// `next_space` from `i` within `s` lies between `i` and `s.len()`.
pub proof fn lemma_next_space_range(s: Seq<u8>, i: int)
    requires
        0 <= i <= s.len(),
    ensures
        i <= next_space(s, i) <= s.len(),
    decreases s.len() - i,
{
    if i < s.len() && !is_space(s[i]) {
        lemma_next_space_range(s, i + 1);
    }
}

/// The key `id`.
pub open spec fn key_id() -> Seq<u8> {
    seq![105u8, 100u8]
}

/// The key `x`.
pub open spec fn key_x() -> Seq<u8> {
    seq![120u8]
}

/// The key `y`.
pub open spec fn key_y() -> Seq<u8> {
    seq![121u8]
}

/// The key `width`.
pub open spec fn key_width() -> Seq<u8> {
    seq![119u8, 105u8, 100u8, 116u8, 104u8]
}

/// The key `height`.
pub open spec fn key_height() -> Seq<u8> {
    seq![104u8, 101u8, 105u8, 103u8, 104u8, 116u8]
}

/// `char ` (with its space), which begins a glyph line.
pub open spec fn glyph_prefix() -> Seq<u8> {
    seq![99u8, 104u8, 97u8, 114u8, 32u8]
}

/// `fields` with the field `key` set from `value`: `id` takes a number up to
/// 255, `x`, `y`, `width` and `height` one up to 2^32 - 1, and other keys
/// leave the fields as they are.
pub open spec fn set_field(fields: GlyphFields, key: Seq<u8>, value: Seq<u8>) -> Result<
    GlyphFields,
    FntError,
> {
    let known = key == key_id() || key == key_x() || key == key_y() || key == key_width() || key
        == key_height();
    let limit: nat = if key == key_id() {
        255
    } else {
        u32::MAX as nat
    };
    if !known {
        Ok(fields)
    } else if !is_decimal(value) || decimal_value(value) > limit {
        Err(FntError::BadNumber)
    } else {
        let n = decimal_value(value);
        if key == key_id() {
            Ok((n as u8, fields.1, fields.2, fields.3, fields.4))
        } else if key == key_x() {
            Ok((fields.0, n as u32, fields.2, fields.3, fields.4))
        } else if key == key_y() {
            Ok((fields.0, fields.1, n as u32, fields.3, fields.4))
        } else if key == key_width() {
            Ok((fields.0, fields.1, fields.2, n as u32, fields.4))
        } else {
            Ok((fields.0, fields.1, fields.2, fields.3, n as u32))
        }
    }
}

/// A `key=value` token applied to `fields`: the key runs up to the first
/// `=`, the value from there up to the next `=` or the token's end.
pub open spec fn apply_token(fields: GlyphFields, t: Seq<u8>) -> Result<GlyphFields, FntError> {
    let eq = next_byte(t, 0, EQUALS);
    if eq >= t.len() {
        Err(FntError::MissingValue)
    } else {
        let rest = t.subrange(eq + 1, t.len() as int);
        set_field(fields, t.subrange(0, eq), rest.subrange(0, next_byte(rest, 0, EQUALS)))
    }
}

/// The tokens of `l` from `i` on, separated by white space, applied to
/// `fields` in order.
pub open spec fn read_fields(l: Seq<u8>, i: int, fields: GlyphFields) -> Result<
    GlyphFields,
    FntError,
>
    decreases l.len() - i,
{
    if i < 0 || i >= l.len() {
        Ok(fields)
    } else if is_space(l[i]) {
        read_fields(l, i + 1, fields)
    } else {
        let e = next_space(l, i);
        if e <= i || e > l.len() {
            Ok(fields)
        } else {
            match apply_token(fields, l.subrange(i, e)) {
                Err(x) => Err(x),
                Ok(f) => read_fields(l, e, f),
            }
        }
    }
}

/// What one line of the metrics file says: lines that begin with `char `
/// describe a glyph, by fields that start at zero; a glyph of width zero,
/// and every other line, says nothing.
pub open spec fn read_line(l: Seq<u8>) -> Result<Option<GlyphFields>, FntError> {
    if l.len() < 5 || l.subrange(0, 5) != glyph_prefix() {
        Ok(None)
    } else {
        match read_fields(l, 5, (0, 0, 0, 0, 0)) {
            Err(x) => Err(x),
            Ok(f) => if f.3 == 0 {
                Ok(None)
            } else {
                Ok(Some(f))
            },
        }
    }
}

/// The text of the line that starts at `i` and ends at the line feed `e`
/// (or at the end of `c`), without the carriage return before a line feed.
pub open spec fn line_at(c: Seq<u8>, i: int, e: int) -> Seq<u8> {
    if e < c.len() && e > i && c[e - 1] == CARRIAGE_RETURN {
        c.subrange(i, e - 1)
    } else {
        c.subrange(i, e)
    }
}

/// The table of glyphs by id, each entry `(x, y, width, height)`.
pub type GlyphTableView = Seq<Option<(u32, u32, u32, u32)>>;

/// `table` with the glyph `g` entered under its id.
pub open spec fn enter_glyph(table: GlyphTableView, g: Option<GlyphFields>) -> GlyphTableView {
    match g {
        None => table,
        Some(f) => table.update(f.0 as int, Some((f.1, f.2, f.3, f.4))),
    }
}

/// The table after reading the lines of `c` from `i` on into `table`, a
/// later glyph replacing an earlier one of the same id.
pub open spec fn read_lines(c: Seq<u8>, i: int, table: GlyphTableView) -> Result<
    GlyphTableView,
    FntError,
>
    decreases c.len() - i,
{
    if i < 0 || i >= c.len() {
        Ok(table)
    } else {
        let e = next_byte(c, i, NEWLINE);
        if e < i {
            Ok(table)
        } else {
            match read_line(line_at(c, i, e)) {
                Err(x) => Err(x),
                Ok(g) => if e >= c.len() {
                    Ok(enter_glyph(table, g))
                } else {
                    read_lines(c, e + 1, enter_glyph(table, g))
                },
            }
        }
    }
}

/// The glyph table that a whole metrics file describes.
pub open spec fn fnt_decode(c: Seq<u8>) -> Result<GlyphTableView, FntError> {
    read_lines(c, 0, Seq::new(GLYPH_IDS as nat, |i: int| None))
}

/// Glyphs by id, as a metrics file describes them.
pub struct GlyphTable {
    glyphs: Vec<Option<Sprite>>,
}

impl View for GlyphTable {
    type V = GlyphTableView;

    closed spec fn view(&self) -> GlyphTableView {
        self.glyphs@.map_values(|g: Option<Sprite>| sprite_view(g))
    }
}

/// The view of an optional sprite.
pub open spec fn sprite_view(g: Option<Sprite>) -> Option<(u32, u32, u32, u32)> {
    match g {
        None => None,
        Some(s) => Some(s@),
    }
}

impl GlyphTable {
    #[verifier::type_invariant]
    closed spec fn inv(&self) -> bool {
        self.glyphs@.len() == GLYPH_IDS
    }

    /// A table without glyphs.
    pub fn new() -> (r: GlyphTable)
        ensures
            r@ == Seq::new(GLYPH_IDS as nat, |i: int| None::<(u32, u32, u32, u32)>),
    {
        let mut glyphs: Vec<Option<Sprite>> = Vec::new();
        let mut i: usize = 0;
        while i < GLYPH_IDS
            invariant
                i <= GLYPH_IDS,
                glyphs@.len() == i,
                forall|k: int| 0 <= k < i ==> #[trigger] glyphs@[k] == None::<Sprite>,
            decreases GLYPH_IDS - i,
        {
            glyphs.push(None);
            i += 1;
        }
        let r = GlyphTable { glyphs };
        assert(r@ =~= Seq::new(GLYPH_IDS as nat, |i: int| None::<(u32, u32, u32, u32)>));
        r
    }

    /// Number of ids the table has room for.
    pub fn len(&self) -> (r: usize)
        ensures
            r == self@.len(),
            r == GLYPH_IDS,
    {
        proof {
            use_type_invariant(self);
        }
        self.glyphs.len()
    }

    /// The glyph of id `id`, if there is one.
    pub fn get(&self, id: u8) -> (r: Option<Sprite>)
        ensures
            sprite_view(r) == self@[id as int],
            self@.len() == GLYPH_IDS,
    {
        proof {
            use_type_invariant(self);
        }
        self.glyphs[id as usize]
    }

    /// The glyph of the character `c`, whose code must be a glyph id.
    pub fn get_char(&self, c: char) -> (r: Option<Sprite>)
        ensures
            (c as u32) < GLYPH_IDS ==> sprite_view(r) == self@[c as u32 as int],
            (c as u32) >= GLYPH_IDS ==> r is None,
    {
        let code = c as u32;
        if code < 256 {
            self.get(code as u8)
        } else {
            None
        }
    }

    /// Enters the glyph `g`, if any, under its id.
    fn enter(&mut self, g: Option<GlyphFields>)
        ensures
            final(self)@ == enter_glyph(old(self)@, g),
    {
        proof {
            use_type_invariant(&*self);
        }
        match g {
            None => {},
            Some(f) => {
                let ghost before = self@;
                self.glyphs[f.0 as usize] = Some(Sprite::new(f.1, f.2, f.3, f.4));
                assert(self@ =~= before.update(f.0 as int, Some((f.1, f.2, f.3, f.4))));
            },
        }
    }
}

pub(crate) fn find_space(s: &[u8], start: usize) -> (r: usize)
    requires
        start <= s@.len(),
    ensures
        r as int == next_space(s@, start as int),
        start <= r <= s@.len(),
{
    let mut i = start;
    while i < s.len()
        invariant
            start <= i <= s@.len(),
            next_space(s@, start as int) == next_space(s@, i as int),
        decreases s@.len() - i,
    {
        if s[i] == 32 || (9 <= s[i] && s[i] <= 13) {
            return i;
        }
        i += 1;
    }
    s.len()
}

/// `s[start..end]` holds exactly the bytes of `lit`.
fn bytes_equal(s: &[u8], start: usize, end: usize, lit: &Vec<u8>) -> (r: bool)
    requires
        start <= end <= s@.len(),
    ensures
        r == (s@.subrange(start as int, end as int) == lit@),
{
    if end - start != lit.len() {
        assert(s@.subrange(start as int, end as int).len() != lit@.len());
        return false;
    }
    let mut k: usize = 0;
    while k < lit.len()
        invariant
            end - start == lit@.len(),
            start <= end <= s@.len(),
            k <= lit@.len(),
            forall|j: int| 0 <= j < k ==> s@[start + j] == #[trigger] lit@[j],
        decreases lit@.len() - k,
    {
        if s[start + k] != lit[k] {
            assert(s@.subrange(start as int, end as int)[k as int] != lit@[k as int]);
            return false;
        }
        k += 1;
    }
    assert(s@.subrange(start as int, end as int) =~= lit@);
    true
}

/// `apply_token` on the token `t`.
fn apply_token_exec(fields: GlyphFields, t: &[u8]) -> (r: Result<GlyphFields, FntError>)
    ensures
        r == apply_token(fields, t@),
{
    let eq = find_byte(t, 0, EQUALS);
    if eq >= t.len() {
        return Err(FntError::MissingValue);
    }
    let rest = copy_range(t, eq + 1, t.len());
    let vend = find_byte(rest.as_slice(), 0, EQUALS);
    let ghost key = t@.subrange(0, eq as int);
    let ghost value = rest@.subrange(0, vend as int);
    let lit_id = vec![105u8, 100u8];
    let lit_x = vec![120u8];
    let lit_y = vec![121u8];
    let lit_width = vec![119u8, 105u8, 100u8, 116u8, 104u8];
    let lit_height = vec![104u8, 101u8, 105u8, 103u8, 104u8, 116u8];
    assert(lit_id@ =~= key_id());
    assert(lit_x@ =~= key_x());
    assert(lit_y@ =~= key_y());
    assert(lit_width@ =~= key_width());
    assert(lit_height@ =~= key_height());
    let is_id = bytes_equal(t, 0, eq, &lit_id);
    let is_x = bytes_equal(t, 0, eq, &lit_x);
    let is_y = bytes_equal(t, 0, eq, &lit_y);
    let is_width = bytes_equal(t, 0, eq, &lit_width);
    let is_height = bytes_equal(t, 0, eq, &lit_height);
    if !(is_id || is_x || is_y || is_width || is_height) {
        return Ok(fields);
    }
    let n = match parse_decimal(rest.as_slice(), 0, vend) {
        Some(n) => n,
        None => {
            return Err(FntError::BadNumber);
        },
    };
    if is_id {
        if n > 255 {
            return Err(FntError::BadNumber);
        }
        Ok((n as u8, fields.1, fields.2, fields.3, fields.4))
    } else if is_x {
        Ok((fields.0, n, fields.2, fields.3, fields.4))
    } else if is_y {
        Ok((fields.0, fields.1, n, fields.3, fields.4))
    } else if is_width {
        Ok((fields.0, fields.1, fields.2, n, fields.4))
    } else {
        Ok((fields.0, fields.1, fields.2, fields.3, n))
    }
}

/// `read_line` on the line `l`.
fn read_line_exec(l: &[u8]) -> (r: Result<Option<GlyphFields>, FntError>)
    ensures
        r == read_line(l@),
{
    let prefix = vec![99u8, 104u8, 97u8, 114u8, 32u8];
    assert(prefix@ =~= glyph_prefix());
    if l.len() < 5 || !bytes_equal(l, 0, 5, &prefix) {
        return Ok(None);
    }
    let mut fields: GlyphFields = (0, 0, 0, 0, 0);
    let mut i: usize = 5;
    while i < l.len()
        invariant
            5 <= i <= l@.len(),
            l@.subrange(0, 5) == glyph_prefix(),
            read_fields(l@, 5, (0, 0, 0, 0, 0)) == read_fields(l@, i as int, fields),
        decreases l@.len() - i,
    {
        if l[i] == 32 || (9 <= l[i] && l[i] <= 13) {
            i += 1;
        } else {
            let e = find_space(l, i);
            proof {
                assert(next_space(l@, i as int) == next_space(l@, i as int + 1));
                lemma_next_space_range(l@, i as int + 1);
            }
            let t = copy_range(l, i, e);
            assert(!is_space(l@[i as int]));
            assert(t@ == l@.subrange(i as int, e as int));
            match apply_token_exec(fields, t.as_slice()) {
                Err(x) => {
                    assert(read_fields(l@, i as int, fields) == Err::<GlyphFields, FntError>(x));
                    return Err(x);
                },
                Ok(f) => {
                    fields = f;
                },
            }
            i = e;
        }
    }
    if fields.3 == 0 {
        Ok(None)
    } else {
        Ok(Some(fields))
    }
}

/// Reads a metrics file: each line that begins with `char ` describes one
/// glyph by `key=value` fields `id`, `x`, `y`, `width` and `height`
/// (others are ignored); glyphs of width zero are left out, and a later line
/// replaces an earlier one of the same id.
pub fn parse_fnt(c: &[u8]) -> (r: Result<GlyphTable, FntError>)
    ensures
        match fnt_decode(c@) {
            Ok(t) => r matches Ok(g) && g@ == t,
            Err(e) => r == Err::<GlyphTable, FntError>(e),
        },
{
    let mut table = GlyphTable::new();
    let mut i: usize = 0;
    while i < c.len()
        invariant
            i <= c@.len(),
            fnt_decode(c@) == read_lines(c@, i as int, table@),
        decreases c@.len() - i,
    {
        let e = find_byte(c, i, NEWLINE);
        let line = if e < c.len() && e > i && c[e - 1] == CARRIAGE_RETURN {
            copy_range(c, i, e - 1)
        } else {
            copy_range(c, i, e)
        };
        assert(line@ == line_at(c@, i as int, e as int));
        match read_line_exec(line.as_slice()) {
            Err(x) => {
                return Err(x);
            },
            Ok(g) => {
                table.enter(g);
            },
        }
        if e >= c.len() {
            return Ok(table);
        }
        i = e + 1;
    }
    Ok(table)
}

/// The glyph of the character `c` in `table`, if its code is an id and the
/// table has one.
pub open spec fn glyph_of(table: GlyphTableView, c: char) -> Option<(u32, u32, u32, u32)> {
    if (c as u32) < GLYPH_IDS {
        table[c as u32 as int]
    } else {
        None
    }
}

/// The glyph whose size sets the width of a space and the height of a line.
pub const SPACING_GLYPH: char = 'a';

/// Where the pen stands after `text`, as (x, line): a space moves it right
/// by the width of `a`, a line feed back to zero on the next line, and any
/// other character right by the width of its glyph.
pub open spec fn pen_after(table: GlyphTableView, text: Seq<char>) -> (int, int)
    decreases text.len(),
{
    if text.len() == 0 {
        (0, 0)
    } else {
        let p = pen_after(table, text.drop_last());
        let c = text.last();
        if c == '\n' {
            (0, p.1 + 1)
        } else if c == ' ' {
            (p.0 + glyph_of(table, SPACING_GLYPH)->Some_0.2, p.1)
        } else {
            (p.0 + glyph_of(table, c)->Some_0.2, p.1)
        }
    }
}

/// What keeps the character `c` from being laid out, if anything: a space
/// or a line feed needs the glyph `a`; another character a glyph of its own
/// that lies within a texture of height `tex_height`.
pub open spec fn char_failure(table: GlyphTableView, tex_height: u32, c: char) -> Option<
    LayoutError,
> {
    if c == '\n' || c == ' ' {
        if glyph_of(table, SPACING_GLYPH) is Some {
            None
        } else {
            Some(LayoutError::MissingGlyph)
        }
    } else {
        match glyph_of(table, c) {
            None => Some(LayoutError::MissingGlyph),
            Some(g) => if g.1 + g.3 <= tex_height {
                None
            } else {
                Some(LayoutError::SpriteOutsideTexture)
            },
        }
    }
}

/// Every character of `text` can be laid out.
pub open spec fn can_lay_out(table: GlyphTableView, tex_height: u32, text: Seq<char>) -> bool {
    forall|i: int| 0 <= i < text.len() ==> #[trigger] char_failure(table, tex_height, text[i]) is None
}

/// One quad of laid-out text, in texels: its bottom left corner, its size,
/// and the bottom left corner of its glyph in the texture.
#[derive(Clone, Copy, PartialEq, Eq, Debug, Structural)]
pub struct GlyphQuad {
    pub x: u64,
    pub y: u64,
    pub width: u32,
    pub height: u32,
    pub u: u32,
    pub v: u32,
}

/// The quads of `text` with the pen's line still as a line number: for each
/// character other than a space or a line feed, in order, its pen position
/// and its glyph.
pub open spec fn placed_glyphs(table: GlyphTableView, text: Seq<char>) -> Seq<
    (int, int, (u32, u32, u32, u32)),
>
    decreases text.len(),
{
    if text.len() == 0 {
        Seq::empty()
    } else {
        let init = text.drop_last();
        let c = text.last();
        if c == '\n' || c == ' ' {
            placed_glyphs(table, init)
        } else {
            let p = pen_after(table, init);
            placed_glyphs(table, init).push((p.0, p.1, glyph_of(table, c)->Some_0))
        }
    }
}

/// The quad of a placed glyph, when the text has `lines` line feeds and
/// lines are `line_height` apart: the first line is the top one, the last
/// one at height zero, and the texture coordinates count rows from the
/// texture's bottom.
pub open spec fn quad_of(
    placed: (int, int, (u32, u32, u32, u32)),
    lines: int,
    line_height: int,
    tex_height: u32,
) -> GlyphQuad {
    let s = placed.2;
    GlyphQuad {
        x: placed.0 as u64,
        y: ((lines - placed.1) * line_height) as u64,
        width: s.2,
        height: s.3,
        u: s.0,
        v: (tex_height - s.1 - s.3) as u32,
    }
}

/// Why a text could not be laid out.
#[derive(Clone, Copy, PartialEq, Eq, Debug, Structural)]
pub enum LayoutError {
    /// A character without a glyph (for a space or a line feed: no glyph `a`).
    MissingGlyph,
    /// A glyph that reaches above the texture's top.
    SpriteOutsideTexture,
}

/// Height of a line: that of the glyph `a`, where there is one.
pub open spec fn line_height(table: GlyphTableView) -> int {
    match glyph_of(table, SPACING_GLYPH) {
        Some(g) => g.3 as int,
        None => 0,
    }
}

/// The laid-out quads of `text`, in order.
pub open spec fn text_quads(table: GlyphTableView, tex_height: u32, text: Seq<char>) -> Seq<GlyphQuad> {
    let lines = pen_after(table, text).1;
    placed_glyphs(table, text).map_values(
        |p: (int, int, (u32, u32, u32, u32))| quad_of(p, lines, line_height(table), tex_height),
    )
}

spec fn placed_view(v: Seq<(u64, u64, Sprite)>) -> Seq<(int, int, (u32, u32, u32, u32))> {
    v.map_values(|e: (u64, u64, Sprite)| (e.0 as int, e.1 as int, e.2@))
}

/// The pen's position and the line stay within what a text of `n`
/// characters can reach.
proof fn lemma_pen_bounds(table: GlyphTableView, text: Seq<char>)
    ensures
        0 <= pen_after(table, text).0 <= text.len() * 0xFFFF_FFFF,
        0 <= pen_after(table, text).1 <= text.len(),
    decreases text.len(),
{
    if text.len() > 0 {
        lemma_pen_bounds(table, text.drop_last());
        assert((text.len() - 1) * 0xFFFF_FFFF + 0xFFFF_FFFF == text.len() * 0xFFFF_FFFF)
            by (nonlinear_arith);
        assert(0 <= (text.len() - 1) * 0xFFFF_FFFF) by (nonlinear_arith)
            requires
                text.len() >= 1,
        ;
    }
}

/// Lays `text` out in quads, one per glyph: spaces and line feeds only move
/// the pen (see `pen_after`), lines run downwards so that the last one sits
/// at height zero, and each quad carries its glyph's place in a texture of
/// height `tex_height`. Refused at the first character that cannot be laid
/// out.
pub fn layout_text(table: &GlyphTable, tex_height: u32, text: &Vec<char>) -> (r: Result<
    Vec<GlyphQuad>,
    LayoutError,
>)
    requires
        text@.len() <= u32::MAX,
    ensures
        r is Ok <==> can_lay_out(table@, tex_height, text@),
        r matches Ok(q) ==> q@ == text_quads(table@, tex_height, text@),
        r matches Err(e) ==> exists|i: int|
            0 <= i < text@.len() && (forall|j: int|
                0 <= j < i ==> #[trigger] char_failure(table@, tex_height, text@[j]) is None)
                && char_failure(table@, tex_height, text@[i]) == Some(e),
{
    let mut pen_x: u64 = 0;
    let mut line: u64 = 0;
    let mut placed: Vec<(u64, u64, Sprite)> = Vec::new();
    let spacing = table.get_char(SPACING_GLYPH);
    let _ = table.len();
    let mut i: usize = 0;
    while i < text.len()
        invariant
            i <= text@.len() <= u32::MAX,
            table@.len() == GLYPH_IDS,
            sprite_view(spacing) == glyph_of(table@, SPACING_GLYPH),
            (pen_x as int, line as int) == pen_after(table@, text@.take(i as int)),
            placed_view(placed@) == placed_glyphs(table@, text@.take(i as int)),
            forall|j: int| 0 <= j < i ==> #[trigger] char_failure(table@, tex_height, text@[j]) is None,
            forall|j: int| 0 <= j < placed@.len() ==> #[trigger] placed@[j].1 <= line,
            forall|j: int|
                0 <= j < placed@.len() ==> (#[trigger] placed@[j]).2@.1 + placed@[j].2@.3
                    <= tex_height,
        decreases text@.len() - i,
    {
        let c = text[i];
        proof {
            lemma_pen_bounds(table@, text@.take(i as int));
            assert(text@.take(i as int + 1).drop_last() =~= text@.take(i as int));
            assert(text@.take(i as int + 1).last() == c);
            assert(i * 0xFFFF_FFFF + 0xFFFF_FFFF <= 0xFFFF_FFFF * 0xFFFF_FFFF + 0xFFFF_FFFF) by (nonlinear_arith)
                requires
                    i < 0xFFFF_FFFF,
            ;
        }
        let ghost before = placed@;
        if c == '\n' || c == ' ' {
            match spacing {
                None => {
                    assert(char_failure(table@, tex_height, text@[i as int]) is Some);
                    return Err(LayoutError::MissingGlyph);
                },
                Some(a) => {
                    if c == '\n' {
                        pen_x = 0;
                        line = line + 1;
                    } else {
                        pen_x = pen_x + a.width() as u64;
                    }
                },
            }
        } else {
            match table.get_char(c) {
                None => {
                    assert(char_failure(table@, tex_height, text@[i as int]) is Some);
                    return Err(LayoutError::MissingGlyph);
                },
                Some(g) => {
                    if g.y() as u64 + g.height() as u64 > tex_height as u64 {
                        assert(char_failure(table@, tex_height, text@[i as int]) is Some);
                        return Err(LayoutError::SpriteOutsideTexture);
                    }
                    placed.push((pen_x, line, g));
                    assert(placed_view(placed@) =~= placed_view(before).push(
                        (pen_x as int, line as int, g@),
                    ));
                    pen_x = pen_x + g.width() as u64;
                },
            }
        }
        i += 1;
    }
    assert(text@.take(text@.len() as int) =~= text@);
    let ghost lines = pen_after(table@, text@).1;
    proof {
        lemma_pen_bounds(table@, text@);
    }
    let line_h: u64 = match spacing {
        Some(a) => a.height() as u64,
        None => 0,
    };
    let mut quads: Vec<GlyphQuad> = Vec::new();
    let mut k: usize = 0;
    while k < placed.len()
        invariant
            k <= placed@.len(),
            line as int == lines,
            lines <= text@.len() <= u32::MAX,
            line_h as int == line_height(table@),
            line_h <= u32::MAX,
            placed_view(placed@) == placed_glyphs(table@, text@),
            can_lay_out(table@, tex_height, text@),
            forall|j: int| 0 <= j < placed@.len() ==> #[trigger] placed@[j].1 <= line,
            forall|j: int|
                0 <= j < placed@.len() ==> (#[trigger] placed@[j]).2@.1 + placed@[j].2@.3
                    <= tex_height,
            quads@ =~= placed_glyphs(table@, text@).take(k as int).map_values(
                |p: (int, int, (u32, u32, u32, u32))| quad_of(p, lines, line_height(table@), tex_height),
            ),
        decreases placed@.len() - k,
    {
        let (px, pl, g) = placed[k];
        assert((line - pl) * line_h <= 0xFFFF_FFFF * 0xFFFF_FFFF) by (nonlinear_arith)
            requires
                line - pl <= 0xFFFF_FFFF,
                line_h <= 0xFFFF_FFFF,
                pl <= line,
        ;
        let q = GlyphQuad {
            x: px,
            y: (line - pl) * line_h,
            width: g.width(),
            height: g.height(),
            u: g.x(),
            v: tex_height - g.y() - g.height(),
        };
        quads.push(q);
        proof {
            assert(placed_view(placed@)[k as int] == (px as int, pl as int, g@));
            assert(placed_glyphs(table@, text@).take(k as int + 1) =~= placed_glyphs(table@, text@).take(
                k as int,
            ).push(placed_view(placed@)[k as int]));
        }
        k += 1;
    }
    assert(placed_glyphs(table@, text@).take(placed@.len() as int) =~= placed_glyphs(table@, text@));
    Ok(quads)
}

} // verus!
