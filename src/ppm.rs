use vstd::prelude::*;
use crate::coord_2d::Coord2D;

verus! {

/// Longest line, in bytes, that the ASCII encoder writes.
pub const LINE_LIMIT: usize = 70;

/// ASCII decimal digits of `n`, most significant first, no leading zeros.
pub open spec fn decimal(n: nat) -> Seq<u8>
    decreases n,
{
    if n < 10 {
        seq![(48 + n) as u8]
    } else {
        decimal(n / 10).push((48 + n % 10) as u8)
    }
}

/// Byte value of a channel after scaling to `0..=255` and rounding: values
/// outside the range are clamped to its ends.
pub open spec fn clamp_channel(scaled: int) -> u8 {
    if scaled < 0 {
        0
    } else if scaled > 255 {
        255
    } else {
        scaled as u8
    }
}

/// Header of a PPM image: `P<kind>`, the width and height, and the largest
/// channel value `255`, each on a line of its own.
pub open spec fn header(kind: u8, w: nat, h: nat) -> Seq<u8> {
    seq![80u8, kind, 10u8] + decimal(w) + seq![32u8] + decimal(h) + seq![10u8, 50u8, 53u8, 53u8, 10u8]
}

/// `kind` byte of the ASCII PPM format (magic `3`).
pub open spec fn ascii_kind() -> u8 {
    51u8
}

/// `kind` byte of the binary PPM format (magic `6`).
pub open spec fn binary_kind() -> u8 {
    54u8
}

/// Whether channel value `i` is the first channel of a pixel that opens a
/// row other than the first, in a grid `w` pixels wide.
pub open spec fn starts_row(w: nat, i: nat) -> bool {
    i % 3 == 0 && (i / 3) % w == 0 && (i / 3) / w > 0
}

/// The ASCII body after the first `n` channel values of `ch`, and the width
/// of its last line. Each value is written in decimal. It goes on a new line
/// when it opens a canvas row, or when a space and the value would push the
/// current line past `LINE_LIMIT`; otherwise a space separates it from the
/// previous value on the line.
pub open spec fn wrapped(w: nat, ch: Seq<u8>, n: nat) -> (Seq<u8>, nat)
    decreases n,
{
    if n == 0 {
        (Seq::empty(), 0)
    } else {
        let prev = wrapped(w, ch, (n - 1) as nat);
        let out = prev.0;
        let width = prev.1;
        let s = decimal(ch[n - 1] as nat);
        if starts_row(w, (n - 1) as nat) || width + 1 + s.len() > LINE_LIMIT {
            (out.push(10u8) + s, s.len())
        } else if width > 0 {
            (out.push(32u8) + s, width + 1 + s.len())
        } else {
            (out + s, s.len())
        }
    }
}

/// The complete ASCII body: the wrapped values and a final newline.
pub open spec fn ascii_body(w: nat, ch: Seq<u8>) -> Seq<u8> {
    wrapped(w, ch, ch.len()).0.push(10u8)
}

/// The complete binary body: the channel bytes as they are, then a newline.
pub open spec fn binary_body(ch: Seq<u8>) -> Seq<u8> {
    ch.push(10u8)
}

/// Whether `ch` holds three channel values for each pixel of a grid of size `dim`.
pub open spec fn fits(dim: Coord2D, ch: Seq<u8>) -> bool {
    ch.len() == 3 * dim.area()
}

proof fn lemma_decimal_len(n: nat)
    ensures
        n < 10 ==> decimal(n).len() == 1,
        10 <= n < 100 ==> decimal(n).len() == 2,
        100 <= n < 1000 ==> decimal(n).len() == 3,
        decimal(n).len() >= 1,
    decreases n,
{
    if n >= 10 {
        lemma_decimal_len(n / 10);
    }
}

/// Whether `s[i..j]` holds no newline.
pub open spec fn no_newline(s: Seq<u8>, i: int, j: int) -> bool {
    forall|k: int| i <= k < j ==> s[k] != 10u8
}

/// Whether every line of `s` is at most `LINE_LIMIT` bytes long, that is,
/// whether every run of bytes without a newline is.
pub open spec fn lines_fit(s: Seq<u8>) -> bool {
    forall|i: int, j: int|
        0 <= i <= j <= s.len() && #[trigger] no_newline(s, i, j) ==> j - i <= LINE_LIMIT
}

/// The last line of `out` is `width` bytes long and within the limit.
spec fn last_line(out: Seq<u8>, width: nat) -> bool {
    &&& width <= LINE_LIMIT
    &&& width <= out.len()
    &&& no_newline(out, out.len() - width, out.len() as int)
    &&& width < out.len() ==> out[out.len() - width - 1] == 10u8
}

proof fn lemma_decimal_digits(n: nat)
    ensures
        forall|k: int| 0 <= k < decimal(n).len() ==> 48 <= #[trigger] decimal(n)[k] <= 57,
    decreases n,
{
    if n >= 10 {
        lemma_decimal_digits(n / 10);
        let d = decimal(n / 10);
        assert(decimal(n) == d.push((48 + n % 10) as u8));
        assert forall|k: int| 0 <= k < decimal(n).len() implies 48 <= #[trigger] decimal(n)[k]
            <= 57 by {
            if k < d.len() {
                assert(decimal(n)[k] == d[k]);
            }
        }
    }
}

proof fn lemma_wrapped_lines(w: nat, ch: Seq<u8>, n: nat)
    requires
        n <= ch.len(),
    ensures
        last_line(wrapped(w, ch, n).0, wrapped(w, ch, n).1),
        lines_fit(wrapped(w, ch, n).0),
    decreases n,
{
    if n > 0 {
        lemma_wrapped_lines(w, ch, (n - 1) as nat);
        let out = wrapped(w, ch, (n - 1) as nat).0;
        let width = wrapped(w, ch, (n - 1) as nat).1;
        let s = decimal(ch[n - 1] as nat);
        lemma_decimal_len(ch[n - 1] as nat);
        lemma_decimal_digits(ch[n - 1] as nat);
        let next = wrapped(w, ch, n).0;
        let ol = out.len() as int;
        assert forall|k: int| 0 <= k < ol implies next[k] == out[k] by {}
        assert forall|k: int| ol < k < next.len() implies next[k] != 10u8 by {
            assert(s[k - ol - 1] <= 57);
        }
        if starts_row(w, (n - 1) as nat) || width + 1 + s.len() > LINE_LIMIT {
            assert(next[ol] == 10u8);
            assert forall|i: int, j: int|
                0 <= i <= j <= next.len() && #[trigger] no_newline(next, i, j) implies j - i
                <= LINE_LIMIT by {
                if j <= ol {
                    assert(no_newline(out, i, j));
                } else if i <= ol {
                    assert(next[ol] != 10u8);
                }
            }
        } else {
            assert forall|k: int| ol - width <= k < next.len() implies next[k] != 10u8 by {
                if k < ol {
                    assert(out[k] != 10u8);
                } else if width > 0 && k == ol {
                } else {
                    assert(s[k - (next.len() - s.len())] <= 57);
                }
            }
            assert forall|i: int, j: int|
                0 <= i <= j <= next.len() && #[trigger] no_newline(next, i, j) implies j - i
                <= LINE_LIMIT by {
                if j <= ol {
                    assert(no_newline(out, i, j));
                } else if i < ol - width {
                    assert(out[ol - width - 1] == 10u8);
                    assert(next[ol - width - 1] != 10u8);
                }
            }
        }
    }
}

/// No line of an ASCII body is longer than `LINE_LIMIT` bytes.
pub proof fn lemma_ascii_lines_fit(w: nat, ch: Seq<u8>)
    ensures
        lines_fit(ascii_body(w, ch)),
{
    let out = wrapped(w, ch, ch.len()).0;
    lemma_wrapped_lines(w, ch, ch.len());
    let body = ascii_body(w, ch);
    let ol = out.len() as int;
    assert forall|i: int, j: int|
        0 <= i <= j <= body.len() && #[trigger] no_newline(body, i, j) implies j - i
        <= LINE_LIMIT by {
        if j <= ol {
            assert forall|k: int| i <= k < j implies out[k] != 10u8 by {
                assert(body[k] == out[k]);
            }
            assert(no_newline(out, i, j));
        } else if i <= ol {
            assert(body[ol] != 10u8);
        }
    }
}

proof fn lemma_wrapped_prefix(w: nat, ch: Seq<u8>, n: nat, m: nat)
    requires
        n <= m <= ch.len(),
    ensures
        wrapped(w, ch, n).0.len() <= wrapped(w, ch, m).0.len(),
        wrapped(w, ch, m).0.subrange(0, wrapped(w, ch, n).0.len() as int) == wrapped(w, ch, n).0,
    decreases m - n,
{
    if n < m {
        lemma_wrapped_prefix(w, ch, n, (m - 1) as nat);
        let a = wrapped(w, ch, n).0;
        let b = wrapped(w, ch, (m - 1) as nat).0;
        let c = wrapped(w, ch, m).0;
        assert(c.subrange(0, b.len() as int) =~= b);
        assert(c.subrange(0, a.len() as int) =~= b.subrange(0, a.len() as int));
    } else {
        assert(wrapped(w, ch, m).0.subrange(0, wrapped(w, ch, n).0.len() as int) =~= wrapped(
            w,
            ch,
            n,
        ).0);
    }
}

/// In an ASCII body, the first value of every pixel row but the top one
/// starts a new line: the body begins with the output for all earlier
/// values, a newline, and that value's digits.
pub proof fn lemma_rows_start_lines(w: nat, ch: Seq<u8>, y: nat)
    requires
        w > 0,
        y > 0,
        3 * w * y < ch.len(),
    ensures
        ({
            let before = wrapped(w, ch, 3 * w * y).0;
            let first = before.push(10u8) + decimal(ch[3 * w * y as int] as nat);
            ascii_body(w, ch).subrange(0, first.len() as int) == first
        }),
{
    let i: nat = 3 * w * y;
    let p = w * y;
    vstd::arithmetic::mul::lemma_mul_is_associative(3, w as int, y as int);
    vstd::arithmetic::mul::lemma_mul_is_commutative(3, p as int);
    vstd::arithmetic::div_mod::lemma_mod_multiples_basic(p as int, 3);
    vstd::arithmetic::div_mod::lemma_div_multiples_vanish(p as int, 3);
    vstd::arithmetic::mul::lemma_mul_is_commutative(w as int, y as int);
    vstd::arithmetic::div_mod::lemma_mod_multiples_basic(y as int, w as int);
    vstd::arithmetic::div_mod::lemma_div_multiples_vanish(y as int, w as int);
    assert(starts_row(w, i));
    lemma_wrapped_prefix(w, ch, i + 1, ch.len());
    let first = wrapped(w, ch, i + 1).0;
    let body = ascii_body(w, ch);
    assert(body.subrange(0, first.len() as int) =~= wrapped(w, ch, ch.len()).0.subrange(
        0,
        first.len() as int,
    ));
}

/// A binary image is its header, then exactly three bytes per pixel, which
/// are the channel values themselves with nothing between them, then one
/// newline.
pub proof fn lemma_binary_layout(dim: Coord2D, ch: Seq<u8>)
    requires
        fits(dim, ch),
    ensures
        ({
            let head = header(binary_kind(), dim.x as nat, dim.y as nat);
            let image = head + binary_body(ch);
            &&& image.len() == head.len() + 3 * dim.area() + 1
            &&& image.subrange(head.len() as int, head.len() + 3 * dim.area()) == ch
            &&& image.last() == 10u8
        }),
{
    let head = header(binary_kind(), dim.x as nat, dim.y as nat);
    let image = head + binary_body(ch);
    assert(image.subrange(head.len() as int, head.len() + 3 * dim.area()) =~= ch);
}

/// Appends the decimal digits of `n` to `out`.
pub fn push_decimal(out: &mut Vec<u8>, n: usize)
    ensures
        final(out)@ == old(out)@ + decimal(n as nat),
    decreases n,
{
    if n >= 10 {
        push_decimal(out, n / 10);
    }
    out.push(48u8 + (n % 10) as u8);
    proof {
        assert(decimal(n as nat) =~= if n < 10 { seq![(48 + n) as u8] } else { decimal((n / 10) as nat).push((48 + n % 10) as u8) });
    }
}

/// Clamps a channel value, already scaled by 255 and rounded, to a byte.
pub fn channel_byte(scaled: i32) -> (r: u8)
    ensures
        r == clamp_channel(scaled as int),
{
    if scaled < 0 {
        0
    } else if scaled > 255 {
        255
    } else {
        scaled as u8
    }
}

fn write_header(kind: u8, dim: Coord2D) -> (r: Vec<u8>)
    ensures
        r@ == header(kind, dim.x as nat, dim.y as nat),
{
    let mut out: Vec<u8> = Vec::new();
    out.push(80u8);
    out.push(kind);
    out.push(10u8);
    push_decimal(&mut out, dim.x);
    out.push(32u8);
    push_decimal(&mut out, dim.y);
    out.push(10u8);
    out.push(50u8);
    out.push(53u8);
    out.push(53u8);
    out.push(10u8);
    assert(out@ =~= header(kind, dim.x as nat, dim.y as nat));
    out
}

/// Header of an ASCII PPM image of size `dim`.
pub fn ascii_header(dim: Coord2D) -> (r: Vec<u8>)
    ensures
        r@ == header(ascii_kind(), dim.x as nat, dim.y as nat),
{
    write_header(51u8, dim)
}

/// Header of a binary PPM image of size `dim`.
pub fn binary_header(dim: Coord2D) -> (r: Vec<u8>)
    ensures
        r@ == header(binary_kind(), dim.x as nat, dim.y as nat),
{
    write_header(54u8, dim)
}

/// A grid that holds at least one channel value is at least one pixel wide.
proof fn lemma_nonempty_width(dim: Coord2D, ch: Seq<u8>)
    requires
        fits(dim, ch),
        ch.len() > 0,
    ensures
        dim.x > 0,
{
    assert(dim.x > 0) by (nonlinear_arith)
        requires
            ch.len() == 3 * (dim.x * dim.y),
            ch.len() > 0,
    ;
}

/// ASCII PPM body of an image of size `dim` whose channel values, three per
/// pixel in row-major order, are `channels`.
pub fn ascii_data(dim: Coord2D, channels: &Vec<u8>) -> (r: Vec<u8>)
    requires
        fits(dim, channels@),
    ensures
        r@ == ascii_body(dim.x as nat, channels@),
{
    let ghost w = dim.x as nat;
    let mut out: Vec<u8> = Vec::new();
    let mut width: usize = 0;
    let mut i: usize = 0;
    while i < channels.len()
        invariant
            0 <= i <= channels.len(),
            fits(dim, channels@),
            w == dim.x,
            out@ == wrapped(w, channels@, i as nat).0,
            width == wrapped(w, channels@, i as nat).1,
            width <= LINE_LIMIT,
        decreases channels.len() - i,
    {
        proof {
            lemma_nonempty_width(dim, channels@);
            lemma_decimal_len(channels@[i as int] as nat);
        }
        let mut s: Vec<u8> = Vec::new();
        push_decimal(&mut s, channels[i] as usize);
        let len = s.len();
        let new_row = if i % 3 == 0 {
            let p = Coord2D::new_from_index(i / 3, &dim);
            p.x == 0 && p.y > 0
        } else {
            false
        };
        assert(new_row == starts_row(w, i as nat));
        if new_row || width + 1 + len > LINE_LIMIT {
            out.push(10u8);
            width = 0;
        } else if width > 0 {
            out.push(32u8);
            width = width + 1;
        }
        out.append(&mut s);
        width = width + len;
        i = i + 1;
    }
    out.push(10u8);
    out
}

/// Binary PPM body of an image of size `dim` whose channel values, three per
/// pixel in row-major order, are `channels`.
pub fn binary_data(dim: Coord2D, channels: &Vec<u8>) -> (r: Vec<u8>)
    requires
        fits(dim, channels@),
    ensures
        r@ == binary_body(channels@),
{
    let mut out: Vec<u8> = Vec::new();
    let mut i: usize = 0;
    while i < channels.len()
        invariant
            0 <= i <= channels.len(),
            out@ == channels@.subrange(0, i as int),
        decreases channels.len() - i,
    {
        out.push(channels[i]);
        i = i + 1;
        assert(out@ =~= channels@.subrange(0, i as int));
    }
    assert(out@ =~= channels@);
    out.push(10u8);
    out
}

/// A complete ASCII PPM image: header, then body.
pub fn encode_ascii(dim: Coord2D, channels: &Vec<u8>) -> (r: Vec<u8>)
    requires
        fits(dim, channels@),
    ensures
        r@ == header(ascii_kind(), dim.x as nat, dim.y as nat) + ascii_body(dim.x as nat, channels@),
{
    let mut out = ascii_header(dim);
    let mut body = ascii_data(dim, channels);
    out.append(&mut body);
    out
}

/// A complete binary PPM image: header, then body.
pub fn encode_binary(dim: Coord2D, channels: &Vec<u8>) -> (r: Vec<u8>)
    requires
        fits(dim, channels@),
    ensures
        r@ == header(binary_kind(), dim.x as nat, dim.y as nat) + binary_body(channels@),
{
    let mut out = binary_header(dim);
    let mut body = binary_data(dim, channels);
    out.append(&mut body);
    out
}

} // verus!
