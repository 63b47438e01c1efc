//! QR codes of a text for the share dialog, drawn as SVG or as a 24-bit BMP.
//!
//! The code itself comes from `qrcodegen`; this module draws its modules.
use vstd::prelude::*;
use vstd::utf8::encode_utf8;
use qrcodegen::{QrCode, QrCodeEcc};
use crate::decimal::{decimal, push_decimal};
use crate::text::{push_str, string_of};

verus! {

/// `qrcodegen::QrCode`, known to Verus as an opaque type; what it holds is
/// read through `qr_code_modules`.
#[verifier::external_type_specification]
#[verifier::external_body]
pub struct ExQrCode(QrCode);

/// The modules of a QR code, row by row from the top, each row from the left
/// (`true` for a dark module).
pub uninterp spec fn qr_code_modules(code: QrCode) -> Seq<Seq<bool>>;

/// The modules of the code that `QrCode::encode_text` makes of a text at the
/// low error-correction level.
pub uninterp spec fn qr_text_modules(text: Seq<char>) -> Seq<Seq<bool>>;

/// Calls `QrCode::encode_text` at the low error-correction level. Claimed:
/// success for texts of at most 738 code points (its documentation's bound),
/// and a code whose modules are `qr_text_modules` of the text, the same for
/// the same text. Which modules those are is not stated.
#[verifier::external_body]
fn encode_text_low(text: &str) -> (r: Option<QrCode>)
    ensures
        text@.len() <= 738 ==> r is Some,
        r matches Some(code) ==> qr_code_modules(code) == qr_text_modules(text@),
{
    QrCode::encode_text(text, QrCodeEcc::Low).ok()
}

/// Calls `QrCode::size`. Claimed: the number of rows of the code's modules,
/// in [21, 177] as documented, each row as long as there are rows (the
/// modules form a `size` by `size` grid).
#[verifier::external_body]
fn code_size(code: &QrCode) -> (r: i32)
    ensures
        r as int == qr_code_modules(*code).len(),
        21 <= r <= 177,
        forall|y: int| 0 <= y < r ==> #[trigger] qr_code_modules(*code)[y].len() == r,
{
    code.size()
}

/// Calls `QrCode::get_module`. Claimed: whether the module in column `x` of
/// row `y` is dark, and `false` for coordinates outside the code, as its
/// documentation says.
#[verifier::external_body]
fn code_module(code: &QrCode, x: i32, y: i32) -> (r: bool)
    ensures
        r == (0 <= x < qr_code_modules(*code).len() && 0 <= y < qr_code_modules(*code).len()
            && qr_code_modules(*code)[y as int][x as int]),
{
    code.get_module(x, y)
}

/// The rows of a grid as sequences.
pub open spec fn grid_view(g: Seq<Vec<bool>>) -> Seq<Seq<bool>> {
    Seq::new(g.len(), |i: int| g[i]@)
}

/// Every row of `m` is as long as `m` has rows.
pub open spec fn is_square(m: Seq<Seq<bool>>) -> bool {
    forall|y: int| 0 <= y < m.len() ==> #[trigger] m[y].len() == m.len()
}

proof fn lemma_utf8_len(s: Seq<char>)
    ensures
        encode_utf8(s).len() >= s.len(),
    decreases s.len(),
{
    if s.len() > 0 {
        lemma_utf8_len(s.drop_first());
    }
}

/// The QR code of `text`, or `None` when the text is longer than 512 bytes.
/// Its modules form a square grid of 21 to 177 modules a side.
pub fn qr_code(text: &str) -> (r: Option<QrCode>)
    ensures
        r is Some <==> encode_utf8(text@).len() <= 512,
        r matches Some(code) ==> qr_code_modules(code) == qr_text_modules(text@),
        r is Some ==> is_square(qr_text_modules(text@)) && 21 <= qr_text_modules(text@).len() <= 177,
{
    let len = text.as_bytes().len();
    if len > 512 {
        return None;
    }
    proof {
        lemma_utf8_len(text@);
    }
    match encode_text_low(text) {
        Some(code) => {
            let _size = code_size(&code);
            Some(code)
        },
        None => None,
    }
}

/// The modules of `code` as a grid.
pub fn code_modules(code: &QrCode) -> (r: Vec<Vec<bool>>)
    ensures
        grid_view(r@) == qr_code_modules(*code),
        21 <= r@.len() <= 177,
        is_square(grid_view(r@)),
{
    let size = code_size(code);
    let ghost m = qr_code_modules(*code);
    let mut rows: Vec<Vec<bool>> = Vec::new();
    let mut y: i32 = 0;
    while y < size
        invariant
            0 <= y <= size,
            21 <= size <= 177,
            m == qr_code_modules(*code),
            size as int == m.len(),
            forall|k: int| 0 <= k < size ==> #[trigger] m[k].len() == size,
            rows@.len() == y,
            forall|k: int| 0 <= k < y ==> #[trigger] rows@[k]@ == m[k],
        decreases size - y,
    {
        let mut row: Vec<bool> = Vec::new();
        let mut x: i32 = 0;
        while x < size
            invariant
                0 <= x <= size,
                0 <= y < size,
                21 <= size <= 177,
                m == qr_code_modules(*code),
                size as int == m.len(),
                m[y as int].len() == size,
                row@ == m[y as int].take(x as int),
            decreases size - x,
        {
            let b = code_module(code, x, y);
            row.push(b);
            assert(m[y as int].take(x + 1) == m[y as int].take(x as int).push(m[y as int][x as int]));
            x += 1;
        }
        assert(m[y as int].take(size as int) == m[y as int]);
        rows.push(row);
        y += 1;
    }
    assert(grid_view(rows@) =~= m);
    rows
}

/// The SVG path piece that draws the module in column `x` of row `y`, inside
/// a border of four modules.
pub open spec fn svg_cell(x: int, y: int) -> Seq<char> {
    "M"@ + decimal((x + 4) as nat) + " "@ + decimal((y + 4) as nat) + "h1v1h-1z"@
}

/// The path pieces of the dark modules of row `y`, from the left.
pub open spec fn svg_row(row: Seq<bool>, y: int) -> Seq<char>
    decreases row.len(),
{
    if row.len() == 0 {
        Seq::empty()
    } else {
        svg_row(row.drop_last(), y) + if row.last() {
            svg_cell(row.len() - 1, y)
        } else {
            Seq::empty()
        }
    }
}

/// The path pieces of all dark modules, row by row from the top.
pub open spec fn svg_rows(m: Seq<Seq<bool>>) -> Seq<char>
    decreases m.len(),
{
    if m.len() == 0 {
        Seq::empty()
    } else {
        svg_rows(m.drop_last()) + svg_row(m.last(), m.len() - 1)
    }
}

/// The SVG image of a grid of modules: a white square with a border of four
/// modules on each side and one dark path.
pub open spec fn qr_svg_spec(m: Seq<Seq<bool>>) -> Seq<char> {
    let side = decimal((m.len() + 8) as nat);
    "<svg xmlns=\"http://www.w3.org/2000/svg\" viewBox=\"0 0 "@ + side + " "@ + side
        + "\" shape-rendering=\"crispEdges\"><rect width=\"100%\" height=\"100%\" fill=\"#fff\"/><path fill=\"#111827\" d=\""@
        + svg_rows(m) + "\"/></svg>"@
}

/// Draws a grid of modules as SVG.
pub fn qr_svg_from_modules(m: &Vec<Vec<bool>>) -> (r: String)
    requires
        m@.len() <= 177,
        is_square(grid_view(m@)),
    ensures
        r@ == qr_svg_spec(grid_view(m@)),
{
    let ghost g = grid_view(m@);
    let n = m.len();
    let mut out: Vec<char> = Vec::new();
    push_str(&mut out, "<svg xmlns=\"http://www.w3.org/2000/svg\" viewBox=\"0 0 ");
    push_decimal(&mut out, (n + 8) as u64);
    push_str(&mut out, " ");
    push_decimal(&mut out, (n + 8) as u64);
    push_str(
        &mut out,
        "\" shape-rendering=\"crispEdges\"><rect width=\"100%\" height=\"100%\" fill=\"#fff\"/><path fill=\"#111827\" d=\"",
    );
    let ghost head = out@;
    let mut y: usize = 0;
    assert(g.take(0) =~= Seq::<Seq<bool>>::empty());
    while y < n
        invariant
            n == m@.len(),
            n <= 177,
            g == grid_view(m@),
            is_square(g),
            y <= n,
            out@ == head + svg_rows(g.take(y as int)),
        decreases n - y,
    {
        let row = &m[y];
        let ghost before = out@;
        assert(row@ == g[y as int]);
        assert(row@.len() == n);
        let mut x: usize = 0;
        assert(row@.take(0) =~= Seq::<bool>::empty());
        while x < row.len()
            invariant
                row@.len() == n,
                n <= 177,
                y < n,
                x <= n,
                out@ == before + svg_row(row@.take(x as int), y as int),
            decreases n - x,
        {
            assert(row@.take(x + 1).drop_last() == row@.take(x as int));
            assert(row@.take(x + 1).last() == row@[x as int]);
            if row[x] {
                push_str(&mut out, "M");
                push_decimal(&mut out, (x + 4) as u64);
                push_str(&mut out, " ");
                push_decimal(&mut out, (y + 4) as u64);
                push_str(&mut out, "h1v1h-1z");
            }
            x += 1;
        }
        assert(row@.take(n as int) == row@);
        assert(g.take(y + 1).drop_last() == g.take(y as int));
        assert(g.take(y + 1).last() == g[y as int]);
        y += 1;
    }
    assert(g.take(n as int) == g);
    push_str(&mut out, "\"/></svg>");
    string_of(&out)
}

/// The SVG image of the QR code of `text`, or `None` when the text is longer
/// than 512 bytes.
pub fn qr_svg(text: &str) -> (r: Option<String>)
    ensures
        r is Some <==> encode_utf8(text@).len() <= 512,
        r matches Some(s) ==> s@ == qr_svg_spec(qr_text_modules(text@)),
        r is Some ==> is_square(qr_text_modules(text@)) && 21 <= qr_text_modules(text@).len() <= 177,
{
    let code = match qr_code(text) {
        Some(c) => c,
        None => {
            return None;
        },
    };
    let m = code_modules(&code);
    Some(qr_svg_from_modules(&m))
}

/// The `k` low bytes of `v`, least significant first.
pub open spec fn le_bytes(v: nat, k: nat) -> Seq<u8>
    decreases k,
{
    if k == 0 {
        Seq::empty()
    } else {
        seq![(v % 256) as u8] + le_bytes(v / 256, (k - 1) as nat)
    }
}

/// The side of the BMP image of an `n`-module code, in pixels: the code and a
/// border of four modules on each side, eight pixels a module.
pub open spec fn bmp_pixels(n: nat) -> nat {
    (n + 8) * 8
}

/// The bytes of one pixel row, padded to a multiple of four.
pub open spec fn bmp_stride(n: nat) -> nat {
    (bmp_pixels(n) * 3 + 3) / 4 * 4
}

/// The 54-byte header of the BMP image of an `n`-module code: file header,
/// then a 40-byte info header for a bottom-up 24-bit image at 2835 pixels a metre.
pub open spec fn bmp_header(n: nat) -> Seq<u8> {
    let p = bmp_pixels(n);
    let image = bmp_stride(n) * p;
    seq![66u8, 77u8] + le_bytes(54 + image, 4) + le_bytes(0, 4) + le_bytes(54, 4) + le_bytes(40, 4)
        + le_bytes(p, 4) + le_bytes(p, 4) + le_bytes(1, 2) + le_bytes(24, 2) + le_bytes(0, 4)
        + le_bytes(image, 4) + le_bytes(2835, 4) + le_bytes(2835, 4) + le_bytes(0, 4) + le_bytes(
        0,
        4,
    )
}

/// Whether pixel `(x, y)` of the image lies on a dark module.
pub open spec fn bmp_dark(m: Seq<Seq<bool>>, x: int, y: int) -> bool {
    let mx = x / 8 - 4;
    let my = y / 8 - 4;
    0 <= mx < m.len() && 0 <= my < m.len() && m[my][mx]
}

/// The blue, green and red bytes of a pixel.
pub open spec fn bmp_color(dark: bool) -> Seq<u8> {
    if dark {
        seq![0x27u8, 0x1fu8, 0x11u8]
    } else {
        seq![0xffu8, 0xffu8, 0xffu8]
    }
}

/// The first `w` pixels of image row `y`.
pub open spec fn bmp_row_pixels(m: Seq<Seq<bool>>, y: int, w: nat) -> Seq<u8>
    decreases w,
{
    if w == 0 {
        Seq::empty()
    } else {
        bmp_row_pixels(m, y, (w - 1) as nat) + bmp_color(bmp_dark(m, w - 1, y))
    }
}

/// Image row `y` as stored: its pixels, then zeros up to the stride.
pub open spec fn bmp_row(m: Seq<Seq<bool>>, y: int) -> Seq<u8> {
    let p = bmp_pixels(m.len());
    bmp_row_pixels(m, y, p) + Seq::new((bmp_stride(m.len()) - p * 3) as nat, |i: int| 0u8)
}

/// The first `k` stored rows, which are the image rows from the bottom one up.
pub open spec fn bmp_rows(m: Seq<Seq<bool>>, k: nat) -> Seq<u8>
    decreases k,
{
    if k == 0 {
        Seq::empty()
    } else {
        bmp_rows(m, (k - 1) as nat) + bmp_row(m, bmp_pixels(m.len()) - k)
    }
}

/// The BMP file of a grid of modules.
pub open spec fn qr_bmp_spec(m: Seq<Seq<bool>>) -> Seq<u8> {
    bmp_header(m.len()) + bmp_rows(m, bmp_pixels(m.len()))
}

fn push_le(out: &mut Vec<u8>, v: u32, k: usize)
    requires
        k <= 4,
    ensures
        final(out)@ == old(out)@ + le_bytes(v as nat, k as nat),
    decreases k,
{
    if k > 0 {
        out.push((v % 256) as u8);
        push_le(out, v / 256, k - 1);
        assert(final(out)@ =~= old(out)@ + le_bytes(v as nat, k as nat));
    }
}

fn push_color(out: &mut Vec<u8>, dark: bool)
    ensures
        final(out)@ == old(out)@ + bmp_color(dark),
{
    if dark {
        out.push(0x27u8);
        out.push(0x1fu8);
        out.push(0x11u8);
    } else {
        out.push(0xffu8);
        out.push(0xffu8);
        out.push(0xffu8);
    }
    assert(final(out)@ =~= old(out)@ + bmp_color(dark));
}

proof fn lemma_bmp_bounds(n: nat)
    requires
        n <= 177,
    ensures
        bmp_pixels(n) <= 1480,
        bmp_pixels(n) * 3 <= bmp_stride(n) <= bmp_pixels(n) * 3 + 3,
        bmp_stride(n) * bmp_pixels(n) <= 6600000,
{
    let p = bmp_pixels(n);
    let s = bmp_stride(n);
    assert(s <= p * 3 + 3);
    assert(p * 3 <= s);
    assert(s * p <= 4443 * 1480) by (nonlinear_arith)
        requires
            s <= 4443,
            p <= 1480,
    ;
}

/// Draws a grid of modules as a 24-bit BMP file.
#[verifier::rlimit(40)]
pub fn qr_bmp_from_modules(m: &Vec<Vec<bool>>) -> (r: Vec<u8>)
    requires
        m@.len() <= 177,
        is_square(grid_view(m@)),
    ensures
        r@ == qr_bmp_spec(grid_view(m@)),
{
    let ghost g = grid_view(m@);
    let n = m.len();
    proof {
        lemma_bmp_bounds(n as nat);
    }
    let pixels: usize = (n + 8) * 8;
    let stride: usize = (pixels * 3 + 3) / 4 * 4;
    let image: usize = stride * pixels;
    let mut out: Vec<u8> = Vec::new();
    out.push(66u8);
    out.push(77u8);
    push_le(&mut out, (54 + image) as u32, 4);
    push_le(&mut out, 0, 4);
    push_le(&mut out, 54, 4);
    push_le(&mut out, 40, 4);
    push_le(&mut out, pixels as u32, 4);
    push_le(&mut out, pixels as u32, 4);
    push_le(&mut out, 1, 2);
    push_le(&mut out, 24, 2);
    push_le(&mut out, 0, 4);
    push_le(&mut out, image as u32, 4);
    push_le(&mut out, 2835, 4);
    push_le(&mut out, 2835, 4);
    push_le(&mut out, 0, 4);
    push_le(&mut out, 0, 4);
    assert(out@ =~= bmp_header(n as nat));
    let mut k: usize = 0;
    while k < pixels
        invariant
            n == m@.len(),
            n <= 177,
            g == grid_view(m@),
            is_square(g),
            pixels == bmp_pixels(n as nat),
            stride == bmp_stride(n as nat),
            pixels * 3 <= stride <= pixels * 3 + 3,
            k <= pixels,
            out@ == bmp_header(n as nat) + bmp_rows(g, k as nat),
        decreases pixels - k,
    {
        let y = pixels - 1 - k;
        let ghost before = out@;
        let mut x: usize = 0;
        while x < pixels
            invariant
                n == m@.len(),
                n <= 177,
                g == grid_view(m@),
                is_square(g),
                pixels == bmp_pixels(n as nat),
                y < pixels,
                x <= pixels,
                out@ == before + bmp_row_pixels(g, y as int, x as nat),
            decreases pixels - x,
        {
            let mx = x / 8;
            let my = y / 8;
            let dark = if mx >= 4 && my >= 4 && mx - 4 < n && my - 4 < n {
                let row = &m[my - 4];
                assert(row@ == g[my - 4]);
                row[mx - 4]
            } else {
                false
            };
            assert(dark == bmp_dark(g, x as int, y as int));
            push_color(&mut out, dark);
            x += 1;
        }
        let ghost pixels_done = out@;
        let pad = stride - pixels * 3;
        let mut j: usize = 0;
        while j < pad
            invariant
                j <= pad,
                out@ == pixels_done + Seq::new(j as nat, |i: int| 0u8),
            decreases pad - j,
        {
            out.push(0u8);
            j += 1;
            assert(out@ =~= pixels_done + Seq::new(j as nat, |i: int| 0u8));
        }
        assert(out@ =~= before + bmp_row(g, y as int));
        k += 1;
        assert(out@ =~= bmp_header(n as nat) + bmp_rows(g, k as nat));
    }
    out
}

/// The BMP image of the QR code of `text`, or `None` when the text is longer
/// than 512 bytes.
pub fn qr_bmp(text: &str) -> (r: Option<Vec<u8>>)
    ensures
        r is Some <==> encode_utf8(text@).len() <= 512,
        r matches Some(b) ==> b@ == qr_bmp_spec(qr_text_modules(text@)),
        r is Some ==> is_square(qr_text_modules(text@)) && 21 <= qr_text_modules(text@).len() <= 177,
{
    let code = match qr_code(text) {
        Some(c) => c,
        None => {
            return None;
        },
    };
    let m = code_modules(&code);
    Some(qr_bmp_from_modules(&m))
}

proof fn lemma_le_bytes_len(v: nat, k: nat)
    ensures
        le_bytes(v, k).len() == k,
    decreases k,
{
    if k > 0 {
        lemma_le_bytes_len(v / 256, (k - 1) as nat);
    }
}

proof fn lemma_row_pixels_len(m: Seq<Seq<bool>>, y: int, w: nat)
    ensures
        bmp_row_pixels(m, y, w).len() == 3 * w,
    decreases w,
{
    if w > 0 {
        lemma_row_pixels_len(m, y, (w - 1) as nat);
    }
}

proof fn lemma_rows_len(m: Seq<Seq<bool>>, k: nat)
    requires
        m.len() <= 177,
    ensures
        bmp_rows(m, k).len() == k * bmp_stride(m.len()),
    decreases k,
{
    lemma_bmp_bounds(m.len());
    if k > 0 {
        lemma_rows_len(m, (k - 1) as nat);
        let p = bmp_pixels(m.len());
        lemma_row_pixels_len(m, p - k, p);
        let st = bmp_stride(m.len());
        assert(bmp_row(m, p - k).len() == st);
        let k1 = (k - 1) as nat;
        assert(bmp_rows(m, k) == bmp_rows(m, k1) + bmp_row(m, p - k));
        assert(bmp_rows(m, k1).len() == k1 * st);
        assert(k1 * st + st == k * st) by (nonlinear_arith)
            requires
                k1 + 1 == k,
        ;
    } else {
        let st = bmp_stride(m.len());
        assert(k * st == 0) by (nonlinear_arith)
            requires
                k == 0,
        ;
    }
}

/// A QR code's BMP file starts with `BM`; its size fields are the file's
/// length and the length of its pixel data; the pixel data starts at byte 54;
/// the image is `(n + 8) * 8` pixels wide and high for an `n`-module code, at
/// 24 bits a pixel.
pub proof fn law_bmp_header_sizes(m: Seq<Seq<bool>>)
    requires
        m.len() <= 177,
    ensures
        qr_bmp_spec(m).len() == 54 + bmp_stride(m.len()) * bmp_pixels(m.len()),
        qr_bmp_spec(m).subrange(0, 2) == seq![66u8, 77u8],
        qr_bmp_spec(m).subrange(2, 6) == le_bytes(qr_bmp_spec(m).len(), 4),
        qr_bmp_spec(m).subrange(10, 14) == le_bytes(54, 4),
        qr_bmp_spec(m).subrange(18, 22) == le_bytes(bmp_pixels(m.len()), 4),
        qr_bmp_spec(m).subrange(22, 26) == le_bytes(bmp_pixels(m.len()), 4),
        qr_bmp_spec(m).subrange(28, 30) == le_bytes(24, 2),
        qr_bmp_spec(m).subrange(34, 38) == le_bytes((qr_bmp_spec(m).len() - 54) as nat, 4),
{
    let n = m.len();
    let p = bmp_pixels(n);
    let image = bmp_stride(n) * p;
    lemma_rows_len(m, p);
    let st = bmp_stride(n);
    assert(p * st == st * p) by (nonlinear_arith);
    lemma_le_bytes_len(54 + image, 4);
    lemma_le_bytes_len(0, 4);
    lemma_le_bytes_len(54, 4);
    lemma_le_bytes_len(40, 4);
    lemma_le_bytes_len(p, 4);
    lemma_le_bytes_len(1, 2);
    lemma_le_bytes_len(24, 2);
    lemma_le_bytes_len(image, 4);
    lemma_le_bytes_len(2835, 4);
    let h = bmp_header(n);
    assert(h.len() == 54);
    let f = qr_bmp_spec(m);
    assert(f.subrange(0, 2) =~= seq![66u8, 77u8]);
    assert(f.subrange(2, 6) =~= le_bytes(54 + image, 4));
    assert(f.subrange(10, 14) =~= le_bytes(54, 4));
    assert(f.subrange(18, 22) =~= le_bytes(p, 4));
    assert(f.subrange(22, 26) =~= le_bytes(p, 4));
    assert(f.subrange(28, 30) =~= le_bytes(24, 2));
    assert(f.subrange(34, 38) =~= le_bytes(image, 4));
}

} // verus!
