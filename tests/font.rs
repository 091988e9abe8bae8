use dust::font::{layout_text, parse_fnt, FntError, GlyphQuad, GlyphTable, LayoutError, Sprite};

const METRICS: &str = "info face=\"Mono\" size=32\n\
common lineHeight=32 base=26 scaleW=256 scaleH=256\n\
chars count=3\n\
char id=97   x=10   y=20   width=8   height=16   xoffset=0\n\
char id=98 x=30 y=40 width=6 height=12\n\
char id=32 x=0 y=0 width=0 height=0\n";

#[test]
fn sprite_keeps_its_rectangle() {
    let s = Sprite::new(1, 2, 3, 4);
    assert_eq!((s.x(), s.y(), s.width(), s.height()), (1, 2, 3, 4));
}

#[test]
fn glyph_lines_fill_the_table() {
    let t = parse_fnt(METRICS.as_bytes()).unwrap();
    assert_eq!(t.len(), 256);
    assert_eq!(t.get(97), Some(Sprite::new(10, 20, 8, 16)));
    assert_eq!(t.get_char('b'), Some(Sprite::new(30, 40, 6, 12)));
    assert_eq!(t.get(32), None);
    assert_eq!(t.get_char('\u{1F600}'), None);
}

#[test]
fn crlf_lines_and_later_glyphs_win() {
    let text = "char id=65 x=1 y=1 width=1 height=1\r\nchar id=65 x=2 y=2 width=2 height=2";
    let t = parse_fnt(text.as_bytes()).unwrap();
    assert_eq!(t.get(65), Some(Sprite::new(2, 2, 2, 2)));
}

#[test]
fn fields_missing_from_a_line_are_zero() {
    let t = parse_fnt(b"char id=66 width=5\n").unwrap();
    assert_eq!(t.get(66), Some(Sprite::new(0, 0, 5, 0)));
    let empty = GlyphTable::new();
    assert_eq!(empty.get(66), None);
}

#[test]
fn malformed_fields_are_refused() {
    assert_eq!(parse_fnt(b"char id=65 x\n").err(), Some(FntError::MissingValue));
    assert_eq!(parse_fnt(b"char id=300 width=1\n").err(), Some(FntError::BadNumber));
    assert_eq!(parse_fnt(b"char id=65 width=abc\n").err(), Some(FntError::BadNumber));
    assert!(parse_fnt(b"kerning first=1 second\n").is_ok());
}

#[test]
fn text_is_laid_out_in_texels() {
    let t = parse_fnt(METRICS.as_bytes()).unwrap();
    let text: Vec<char> = "ab a\nb".chars().collect();
    let q = layout_text(&t, 256, &text).unwrap();
    assert_eq!(q.len(), 4);
    assert_eq!(q[0], GlyphQuad { x: 0, y: 16, width: 8, height: 16, u: 10, v: 220 });
    assert_eq!(q[1], GlyphQuad { x: 8, y: 16, width: 6, height: 12, u: 30, v: 204 });
    assert_eq!(q[2], GlyphQuad { x: 22, y: 16, width: 8, height: 16, u: 10, v: 220 });
    assert_eq!(q[3], GlyphQuad { x: 0, y: 0, width: 6, height: 12, u: 30, v: 204 });
}

#[test]
fn layout_errors() {
    let t = parse_fnt(METRICS.as_bytes()).unwrap();
    let missing: Vec<char> = "abc".chars().collect();
    assert_eq!(layout_text(&t, 256, &missing).err(), Some(LayoutError::MissingGlyph));
    assert_eq!(layout_text(&t, 30, &vec!['a']).err(), Some(LayoutError::SpriteOutsideTexture));
    let no_a = parse_fnt(b"char id=98 width=1 height=1\n").unwrap();
    assert_eq!(layout_text(&no_a, 8, &vec!['b', ' ']).err(), Some(LayoutError::MissingGlyph));
    assert_eq!(layout_text(&no_a, 8, &vec!['b']).unwrap().len(), 1);
}

#[test]
fn values_may_carry_a_plus_sign() {
    let t = parse_fnt(b"char id=+65 x=+5 y=0 width=+3 height=+2\n").unwrap();
    assert_eq!(t.get(65), Some(Sprite::new(5, 0, 3, 2)));
    assert_eq!(parse_fnt(b"char id=65 width=+\n").err(), Some(FntError::BadNumber));
    assert_eq!(parse_fnt(b"char id=65 width=++1\n").err(), Some(FntError::BadNumber));
    assert_eq!(parse_fnt(b"char id=65 width=-1\n").err(), Some(FntError::BadNumber));
}
