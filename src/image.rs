//! The binary RGB image format (binary portable pixmap) that textures are
//! loaded from: the magic line `P6`, a comment line, a line
//! `<width> <height>`, a line `255`, then three bytes per pixel, row by row
//! from the top. Decoding turns the rows upside down, so that the first row
//! of the result is the bottom of the picture.
use vstd::prelude::*;

verus! {

/// Line feed, which ends each header line.
pub const NEWLINE: u8 = 10;

/// Space, which separates width and height.
pub const SPACE: u8 = 32;

/// The first index at or after `i` where `b` holds `x`, or `b.len()` where
/// there is none.
pub open spec fn next_byte(b: Seq<u8>, i: int, x: u8) -> int
    decreases b.len() - i,
{
    if i < 0 || i >= b.len() {
        b.len() as int
    } else if b[i] == x {
        i
    } else {
        next_byte(b, i + 1, x)
    }
}

/// `next_byte` always lies within `0..=b.len()`.
pub proof fn lemma_next_byte_range(b: Seq<u8>, i: int, x: u8)
    ensures
        0 <= next_byte(b, i, x) <= b.len(),
    decreases b.len() - i,
{
    if 0 <= i < b.len() && b[i] != x {
        lemma_next_byte_range(b, i + 1, x);
    }
}

/// The byte is an ASCII decimal digit.
pub open spec fn is_digit(c: u8) -> bool {
    48 <= c <= 57
}

/// A non-empty run of decimal digits.
pub open spec fn is_digits(s: Seq<u8>) -> bool {
    s.len() > 0 && forall|i: int| 0 <= i < s.len() ==> is_digit(#[trigger] s[i])
}

/// The number that a run of decimal digits writes.
pub open spec fn digits_value(s: Seq<u8>) -> nat
    decreases s.len(),
{
    if s.len() == 0 {
        0
    } else {
        digits_value(s.drop_last()) * 10 + (s.last() - 48) as nat
    }
}

/// Plus sign, which may lead an unsigned number.
pub const PLUS: u8 = 43;

/// The digits of an unsigned number: `s` without one leading `+`.
pub open spec fn unsigned_digits(s: Seq<u8>) -> Seq<u8> {
    if s.len() > 0 && s[0] == PLUS {
        s.drop_first()
    } else {
        s
    }
}

/// An unsigned decimal number: one optional `+`, then at least one digit.
pub open spec fn is_decimal(s: Seq<u8>) -> bool {
    is_digits(unsigned_digits(s))
}

/// The number that an unsigned decimal number writes.
pub open spec fn decimal_value(s: Seq<u8>) -> nat {
    digits_value(unsigned_digits(s))
}

/// Why an image file was refused.
#[derive(Clone, Copy, PartialEq, Eq, Debug, Structural)]
pub enum PnmError {
    /// The file ends inside the header, before a line's end.
    Unterminated,
    /// The first line is not `P6`.
    BadMagic,
    /// The size line is not two unsigned decimal numbers (each an optional
    /// `+` and digits) separated by a space, or one of them does not fit in
    /// 32 bits.
    BadSize,
    /// The fourth line is not `255`.
    BadMaxValue,
    /// The pixel data is not three bytes for each pixel.
    BadDataLength,
}

/// What the header says: width, height and where the pixel data begins.
pub ghost struct PnmHeader {
    pub width: nat,
    pub height: nat,
    pub data_start: int,
}

/// The width and height fields of a size line: up to the first space, and
/// from there up to the next space or the line's end.
pub open spec fn size_fields(line: Seq<u8>) -> Option<(Seq<u8>, Seq<u8>)> {
    let sp = next_byte(line, 0, SPACE);
    if sp >= line.len() {
        None
    } else {
        let rest = line.subrange(sp + 1, line.len() as int);
        Some((line.subrange(0, sp), rest.subrange(0, next_byte(rest, 0, SPACE))))
    }
}

/// The header of `b`, or the first thing wrong with it.
pub open spec fn pnm_header(b: Seq<u8>) -> Result<PnmHeader, PnmError> {
    let e0 = next_byte(b, 0, NEWLINE);
    let e1 = next_byte(b, e0 + 1, NEWLINE);
    let e2 = next_byte(b, e1 + 1, NEWLINE);
    let e3 = next_byte(b, e2 + 1, NEWLINE);
    if e0 >= b.len() {
        Err(PnmError::Unterminated)
    } else if b.subrange(0, e0) != seq![80u8, 54u8] {
        Err(PnmError::BadMagic)
    } else if e1 >= b.len() || e2 >= b.len() {
        Err(PnmError::Unterminated)
    } else {
        match size_fields(b.subrange(e1 + 1, e2)) {
            None => Err(PnmError::BadSize),
            Some((w, h)) => if !is_decimal(w) || !is_decimal(h) || decimal_value(w) > u32::MAX
                || decimal_value(h) > u32::MAX {
                Err(PnmError::BadSize)
            } else if e3 >= b.len() {
                Err(PnmError::Unterminated)
            } else if b.subrange(e2 + 1, e3) != seq![50u8, 53u8, 53u8] {
                Err(PnmError::BadMaxValue)
            } else {
                Ok(PnmHeader { width: decimal_value(w), height: decimal_value(h), data_start: e3 + 1 })
            },
        }
    }
}

/// The first `h` rows of `row_len` bytes of `data`, last row first.
pub open spec fn reversed_rows(data: Seq<u8>, row_len: nat, h: nat) -> Seq<u8>
    decreases h,
{
    if h == 0 {
        Seq::empty()
    } else {
        data.subrange((h - 1) * row_len, (h * row_len) as int) + reversed_rows(data, row_len, (h - 1) as nat)
    }
}

/// A decoded picture: its size, and its pixels bottom row first.
pub ghost struct Picture {
    pub width: nat,
    pub height: nat,
    pub pixels: Seq<u8>,
}

/// The picture that the file `b` holds, or the first thing wrong with it.
pub open spec fn pnm_decode(b: Seq<u8>) -> Result<Picture, PnmError> {
    match pnm_header(b) {
        Err(e) => Err(e),
        Ok(hd) => {
            let data = b.subrange(hd.data_start, b.len() as int);
            if data.len() != hd.width * hd.height * 3 {
                Err(PnmError::BadDataLength)
            } else {
                Ok(
                    Picture {
                        width: hd.width,
                        height: hd.height,
                        pixels: reversed_rows(data, hd.width * 3, hd.height),
                    },
                )
            }
        },
    }
}

/// An RGB image, three bytes per pixel, the bottom row first.
pub struct RgbImage {
    width: u32,
    height: u32,
    pixels: Vec<u8>,
}

impl View for RgbImage {
    type V = Picture;

    closed spec fn view(&self) -> Picture {
        Picture { width: self.width as nat, height: self.height as nat, pixels: self.pixels@ }
    }
}

impl RgbImage {
    pub fn width(&self) -> (r: u32)
        ensures
            r == self@.width,
    {
        self.width
    }

    pub fn height(&self) -> (r: u32)
        ensures
            r == self@.height,
    {
        self.height
    }

    /// The pixels, three bytes each, row by row from the bottom.
    pub fn pixels(&self) -> (r: &Vec<u8>)
        ensures
            r@ == self@.pixels,
    {
        &self.pixels
    }

    /// Gives up the pixels.
    pub fn into_pixels(self) -> (r: Vec<u8>)
        ensures
            r@ == self@.pixels,
    {
        self.pixels
    }
}

pub(crate) fn find_byte(b: &[u8], start: usize, x: u8) -> (r: usize)
    ensures
        r as int == next_byte(b@, start as int, x),
        start <= b@.len() ==> start <= r <= b@.len(),
{
    let mut i = start;
    if i >= b.len() {
        return b.len();
    }
    while i < b.len()
        invariant
            start <= i <= b@.len(),
            next_byte(b@, start as int, x) == next_byte(b@, i as int, x),
        decreases b@.len() - i,
    {
        if b[i] == x {
            return i;
        }
        i += 1;
    }
    assert(next_byte(b@, i as int, x) == b@.len());
    b.len()
}

/// `min(digits_value(s), 2^32)` grows by one digit as `digits_value` does.
proof fn lemma_capped_step(v: nat, d: nat)
    requires
        d <= 9,
    ensures
        (if v > 0x1_0000_0000 { 0x1_0000_0000 } else { v }) * 10 + d >= 0x1_0000_0000 <==> v * 10
            + d >= 0x1_0000_0000,
{
    if v > 0x1_0000_0000 {
        assert(v * 10 >= 0x1_0000_0000) by (nonlinear_arith)
            requires
                v > 0x1_0000_0000,
        ;
    }
}

/// The number that the digits `b[start..end]` write, where they are digits
/// and it fits in 32 bits.
fn parse_digits(b: &[u8], start: usize, end: usize) -> (r: Option<u32>)
    requires
        start <= end <= b@.len(),
    ensures
        r == (if is_digits(b@.subrange(start as int, end as int)) && digits_value(
            b@.subrange(start as int, end as int),
        ) <= u32::MAX {
            Some(digits_value(b@.subrange(start as int, end as int)) as u32)
        } else {
            None::<u32>
        }),
{
    let ghost s = b@.subrange(start as int, end as int);
    if start == end {
        return None;
    }
    // The value read so far, held at 2^32 once it passes that.
    let mut acc: u64 = 0;
    let mut i = start;
    while i < end
        invariant
            start <= i <= end <= b@.len(),
            s == b@.subrange(start as int, end as int),
            forall|k: int| 0 <= k < i - start ==> is_digit(#[trigger] s[k]),
            acc == (if digits_value(s.take(i - start)) > 0x1_0000_0000 {
                0x1_0000_0000
            } else {
                digits_value(s.take(i - start))
            }),
        decreases end - i,
    {
        let c = b[i];
        if !(48 <= c && c <= 57) {
            assert(!is_digit(s[i - start]));
            return None;
        }
        proof {
            let t = s.take(i - start + 1);
            assert(t.drop_last() =~= s.take(i - start));
            lemma_capped_step(digits_value(s.take(i - start)), (c - 48) as nat);
        }
        let next = acc * 10 + (c - 48) as u64;
        acc = if next > 0x1_0000_0000 { 0x1_0000_0000 } else { next };
        i += 1;
    }
    assert(s.take(end - start) =~= s);
    if acc > 0xFFFF_FFFF {
        None
    } else {
        Some(acc as u32)
    }
}

/// The unsigned decimal number written in `b[start..end]` (an optional
/// `+`, then digits), where it is one and fits in 32 bits.
pub(crate) fn parse_decimal(b: &[u8], start: usize, end: usize) -> (r: Option<u32>)
    requires
        start <= end <= b@.len(),
    ensures
        r == (if is_decimal(b@.subrange(start as int, end as int)) && decimal_value(
            b@.subrange(start as int, end as int),
        ) <= u32::MAX {
            Some(decimal_value(b@.subrange(start as int, end as int)) as u32)
        } else {
            None::<u32>
        }),
{
    let ghost s = b@.subrange(start as int, end as int);
    if start < end && b[start] == PLUS {
        assert(unsigned_digits(s) =~= b@.subrange(start + 1, end as int));
        parse_digits(b, start + 1, end)
    } else {
        assert(unsigned_digits(s) == s);
        parse_digits(b, start, end)
    }
}

/// Appends `b[start..end]` to `out`.
fn append_range(out: &mut Vec<u8>, b: &[u8], start: usize, end: usize)
    requires
        start <= end <= b@.len(),
    ensures
        final(out)@ == old(out)@ + b@.subrange(start as int, end as int),
{
    let mut i = start;
    while i < end
        invariant
            start <= i <= end <= b@.len(),
            out@ == old(out)@ + b@.subrange(start as int, i as int),
        decreases end - i,
    {
        out.push(b[i]);
        assert(b@.subrange(start as int, i + 1) =~= b@.subrange(start as int, i as int).push(b@[i as int]));
        i += 1;
    }
}

/// A copy of `b[start..end]`.
pub(crate) fn copy_range(b: &[u8], start: usize, end: usize) -> (r: Vec<u8>)
    requires
        start <= end <= b@.len(),
    ensures
        r@ == b@.subrange(start as int, end as int),
{
    let mut r: Vec<u8> = Vec::new();
    append_range(&mut r, b, start, end);
    assert(r@ =~= b@.subrange(start as int, end as int));
    r
}

/// Row `k` of `reversed_rows` is row `h - 1 - k` of the data; in particular
/// its first pixel is the first pixel of the data's last row.
pub proof fn lemma_reversed_rows(data: Seq<u8>, row_len: nat, h: nat)
    requires
        data.len() == row_len * h,
    ensures
        reversed_rows(data, row_len, h).len() == row_len * h,
        forall|k: int, x: int|
            0 <= k < h && 0 <= x < row_len ==> #[trigger] reversed_rows(data, row_len, h)[k
                * row_len + x] == data[(h - 1 - k) * row_len + x],
    decreases h,
{
    if h > 0 {
        let hm = (h - 1) as nat;
        let rhm = (row_len * hm) as int;
        assert(row_len * h == rhm + row_len) by (nonlinear_arith)
            requires
                hm == h - 1,
                rhm == row_len * hm,
        ;
        assert(hm * row_len == rhm) by (nonlinear_arith)
            requires
                rhm == row_len * hm,
        ;
        assert(h * row_len == row_len * h) by (nonlinear_arith);
        assert((h - 1) * row_len == rhm) by (nonlinear_arith)
            requires
                hm == h - 1,
                rhm == row_len * hm,
        ;
        let pre = data.subrange(0, rhm);
        lemma_reversed_rows(pre, row_len, hm);
        lemma_reversed_rows_prefix(data, row_len, hm);
        let top = data.subrange(rhm, (h * row_len) as int);
        assert(reversed_rows(data, row_len, h) == top + reversed_rows(pre, row_len, hm));
        assert(top.len() == row_len);
        assert(reversed_rows(pre, row_len, hm).len() == rhm);
        assert forall|k: int, x: int| 0 <= k < h && 0 <= x < row_len implies #[trigger] reversed_rows(
            data,
            row_len,
            h,
        )[k * row_len + x] == data[(h - 1 - k) * row_len + x] by {
            if k == 0 {
                assert(k * row_len + x == x) by (nonlinear_arith)
                    requires
                        k == 0,
                ;
                assert((h - 1 - k) * row_len + x == rhm + x) by (nonlinear_arith)
                    requires
                        k == 0,
                        hm == h - 1,
                        rhm == row_len * hm,
                ;
            } else {
                let j = (k - 1) * row_len + x;
                assert(k * row_len + x == row_len + j) by (nonlinear_arith)
                    requires
                        j == (k - 1) * row_len + x,
                ;
                assert(0 <= j < rhm) by (nonlinear_arith)
                    requires
                        0 <= k - 1 < hm,
                        0 <= x < row_len,
                        j == (k - 1) * row_len + x,
                        rhm == row_len * hm,
                ;
                assert(0 <= (h - 1 - k) * row_len + x < rhm) by (nonlinear_arith)
                    requires
                        0 <= h - 1 - k < hm,
                        0 <= x < row_len,
                        rhm == row_len * hm,
                ;
                assert(hm - 1 - (k - 1) == h - 1 - k);
                assert(reversed_rows(pre, row_len, hm)[j] == pre[(hm - 1 - (k - 1)) * row_len + x]);
            }
        }
    } else {
        assert(row_len * h == 0) by (nonlinear_arith)
            requires
                h == 0,
        ;
    }
}

/// `reversed_rows` over `h` rows reads only the first `h` rows.
proof fn lemma_reversed_rows_prefix(data: Seq<u8>, row_len: nat, h: nat)
    requires
        data.len() >= row_len * h,
    ensures
        reversed_rows(data, row_len, h) == reversed_rows(
            data.subrange(0, (row_len * h) as int),
            row_len,
            h,
        ),
    decreases h,
{
    if h > 0 {
        let hm = (h - 1) as nat;
        assert(row_len * hm <= row_len * h) by (nonlinear_arith)
            requires
                hm <= h,
        ;
        assert(hm * row_len == row_len * hm) by (nonlinear_arith);
        assert(h * row_len == row_len * h) by (nonlinear_arith);
        lemma_reversed_rows_prefix(data, row_len, hm);
        let rh = (row_len * h) as int;
        let rhm = (row_len * hm) as int;
        lemma_reversed_rows_prefix(data.subrange(0, rh), row_len, hm);
        assert(data.subrange(0, rh).subrange(0, rhm) =~= data.subrange(0, rhm));
        assert(data.subrange(0, rh).subrange(rhm, rh) =~= data.subrange(rhm, rh));
    }
}

/// In a decoded picture of at least one pixel, the first pixel (the bottom
/// left one) is the first pixel of the file's last row.
pub proof fn lemma_bottom_left_pixel(b: Seq<u8>)
    requires
        pnm_decode(b) is Ok,
        pnm_decode(b)->Ok_0.width > 0,
        pnm_decode(b)->Ok_0.height > 0,
    ensures
        ({
            let p = pnm_decode(b)->Ok_0;
            let start = pnm_header(b)->Ok_0.data_start;
            forall|c: int|
                0 <= c < 3 ==> #[trigger] p.pixels[c] == b[start + (p.height - 1) * (3
                    * p.width) + c]
        }),
{
    let hd = pnm_header(b)->Ok_0;
    let e0 = next_byte(b, 0, NEWLINE);
    let e1 = next_byte(b, e0 + 1, NEWLINE);
    let e2 = next_byte(b, e1 + 1, NEWLINE);
    lemma_next_byte_range(b, e2 + 1, NEWLINE);
    let data = b.subrange(hd.data_start, b.len() as int);
    let rl = hd.width * 3;
    let h = hd.height;
    let lo = (h - 1) * rl;
    assert(lo == (h - 1) * (3 * hd.width)) by (nonlinear_arith)
        requires
            lo == (h - 1) * rl,
            rl == hd.width * 3,
    ;
    assert(lo + rl == h * rl) by (nonlinear_arith)
        requires
            lo == (h - 1) * rl,
    ;
    assert(h * rl == data.len()) by (nonlinear_arith)
        requires
            data.len() == hd.width * hd.height * 3,
            rl == hd.width * 3,
            h == hd.height,
    ;
    let top = data.subrange(lo, (h * rl) as int);
    assert(pnm_decode(b)->Ok_0.pixels == reversed_rows(data, rl, h));
    assert(reversed_rows(data, rl, h) == top + reversed_rows(data, rl, (h - 1) as nat));
    assert(top.len() == rl);
    assert forall|c: int| 0 <= c < 3 implies #[trigger] pnm_decode(b)->Ok_0.pixels[c] == b[hd.data_start
        + (hd.height - 1) * (3 * hd.width) + c] by {
        assert(top[c] == data[lo + c]);
    }
}

/// Decodes an image file. The result's first row is the picture's bottom
/// row: the file's rows in reverse order.
pub fn parse_pnm(b: &[u8]) -> (r: Result<RgbImage, PnmError>)
    ensures
        match pnm_decode(b@) {
            Ok(p) => r matches Ok(img) && img@ == p,
            Err(e) => r == Err::<RgbImage, PnmError>(e),
        },
{
    let e0 = find_byte(b, 0, NEWLINE);
    if e0 >= b.len() {
        return Err(PnmError::Unterminated);
    }
    if !(e0 == 2 && b[0] == 80 && b[1] == 54) {
        proof {
            if b@.subrange(0, e0 as int) == seq![80u8, 54u8] {
                assert(b@.subrange(0, e0 as int).len() == 2);
                assert(b@.subrange(0, e0 as int)[0] == 80u8);
                assert(b@.subrange(0, e0 as int)[1] == 54u8);
            }
        }
        return Err(PnmError::BadMagic);
    }
    assert(b@.subrange(0, e0 as int) =~= seq![80u8, 54u8]);
    let e1 = find_byte(b, e0 + 1, NEWLINE);
    if e1 >= b.len() {
        return Err(PnmError::Unterminated);
    }
    let e2 = find_byte(b, e1 + 1, NEWLINE);
    if e2 >= b.len() {
        return Err(PnmError::Unterminated);
    }
    let line = copy_range(b, e1 + 1, e2);
    let sp = find_byte(line.as_slice(), 0, SPACE);
    if sp >= line.len() {
        return Err(PnmError::BadSize);
    }
    let rest = copy_range(line.as_slice(), sp + 1, line.len());
    let sp2 = find_byte(rest.as_slice(), 0, SPACE);
    let width = match parse_decimal(line.as_slice(), 0, sp) {
        Some(w) => w,
        None => {
            return Err(PnmError::BadSize);
        },
    };
    let height = match parse_decimal(rest.as_slice(), 0, sp2) {
        Some(h) => h,
        None => {
            return Err(PnmError::BadSize);
        },
    };
    let e3 = find_byte(b, e2 + 1, NEWLINE);
    if e3 >= b.len() {
        return Err(PnmError::Unterminated);
    }
    if !(e3 - e2 == 4 && b[e2 + 1] == 50 && b[e2 + 2] == 53 && b[e2 + 3] == 53) {
        proof {
            let m = b@.subrange(e2 + 1, e3 as int);
            if m == seq![50u8, 53u8, 53u8] {
                assert(m.len() == 3);
                assert(m[0] == 50u8 && m[1] == 53u8 && m[2] == 53u8);
            }
        }
        return Err(PnmError::BadMaxValue);
    }
    assert(b@.subrange(e2 + 1, e3 as int) =~= seq![50u8, 53u8, 53u8]);
    let start = e3 + 1;
    let ghost data = b@.subrange(start as int, b@.len() as int);
    let data_len = b.len() - start;
    assert((width as u128) * (height as u128) <= 0xFFFF_FFFF * 0xFFFF_FFFF) by (nonlinear_arith)
        requires
            width <= 0xFFFF_FFFF,
            height <= 0xFFFF_FFFF,
    ;
    if data_len as u128 != (width as u128) * (height as u128) * 3 {
        return Err(PnmError::BadDataLength);
    }
    let mut pixels: Vec<u8> = Vec::new();
    if height > 0 {
        let rl128 = 3 * (width as u128);
        let h = height as usize;
        assert(rl128 * height <= usize::MAX) by (nonlinear_arith)
            requires
                rl128 == 3 * width,
                data_len == width * height * 3,
                data_len <= usize::MAX,
        ;
        assert(rl128 <= usize::MAX) by (nonlinear_arith)
            requires
                rl128 * height <= usize::MAX,
                height > 0,
        ;
        let rl = rl128 as usize;
        let ghost rln = rl as nat;
        assert(data.len() == rln * h) by (nonlinear_arith)
            requires
                data.len() == width * height * 3,
                rln == 3 * width,
                h == height,
        ;
        let mut k: usize = 0;
        while k < h
            invariant
                k <= h,
                h == height,
                rl == rln,
                rln == width * 3,
                start + rln * h == b@.len(),
                b@.len() <= usize::MAX,
                data == b@.subrange(start as int, b@.len() as int),
                data.len() == rln * h,
                pixels@ + reversed_rows(data, rln, (h - k) as nat) == reversed_rows(data, rln, h as nat),
            decreases h - k,
        {
            let row = h - 1 - k;
            assert(row * rl + rl <= rl * h) by (nonlinear_arith)
                requires
                    row < h,
            ;
            assert(start + rl * h == b@.len());
            let src = start + row * rl;
            let ghost before = pixels@;
            append_range(&mut pixels, b, src, src + rl);
            proof {
                let hk = (h - k) as nat;
                assert(hk - 1 == row);
                assert((row + 1) * rln == row * rln + rln) by (nonlinear_arith);
                assert(b@.subrange(src as int, src + rl) =~= data.subrange(
                    (hk - 1) * rln,
                    (hk * rln) as int,
                ));
                assert(reversed_rows(data, rln, hk) == data.subrange(
                    (hk - 1) * rln,
                    (hk * rln) as int,
                ) + reversed_rows(data, rln, (hk - 1) as nat));
                assert(pixels@ + reversed_rows(data, rln, (h - (k + 1)) as nat) =~= before
                    + reversed_rows(data, rln, hk));
            }
            k += 1;
        }
        assert(pixels@ =~= reversed_rows(data, rln, h as nat));
        assert(width * 3 == rln);
    } else {
        assert(pixels@ =~= reversed_rows(data, (width * 3) as nat, 0));
    }
    Ok(RgbImage { width, height, pixels })
}

} // verus!
