use vstd::prelude::*;

use crate::canvas::Canvas;

verus! {

/// No line of the image file is longer than this many bytes.
pub const MAX_LINE_LENGTH: usize = 70;

/// A pixel as three channel values from 0 to 255.
#[derive(Clone, Copy, Debug, PartialEq, Eq, Structural)]
pub struct Rgb8 {
    pub r: u8,
    pub g: u8,
    pub b: u8,
}

/// The decimal digits of `n` as ASCII, without leading zeros.
pub open spec fn decimal(n: nat) -> Seq<u8>
    decreases n,
{
    if n < 10 {
        seq![(48 + n) as u8]
    } else {
        decimal(n / 10).push((48 + n % 10) as u8)
    }
}

/// A pixel as text: its three channels in decimal, separated by spaces.
pub open spec fn pixel_text(p: Rgb8) -> Seq<u8> {
    decimal(p.r as nat) + seq![32u8] + decimal(p.g as nat) + seq![32u8] + decimal(p.b as nat)
}

/// The text of the pixels of `row`, where `col` bytes already stand on the
/// current line. The first pixel of a row starts its line. Every later pixel
/// follows a single separator: a line break where the line is already
/// `MAX_LINE_LENGTH` bytes long; otherwise a space, and after it a line break
/// as well where the pixel would carry the line past `MAX_LINE_LENGTH`.
pub open spec fn row_text(row: Seq<Rgb8>, first: bool, col: int) -> Seq<u8>
    decreases row.len(),
{
    if row.len() == 0 {
        Seq::empty()
    } else {
        let t = pixel_text(row[0]);
        let rest = row.drop_first();
        if first {
            t + row_text(rest, false, t.len() as int)
        } else if col >= MAX_LINE_LENGTH {
            seq![10u8] + t + row_text(rest, false, t.len() as int)
        } else if col + 1 + t.len() > MAX_LINE_LENGTH {
            seq![32u8, 10u8] + t + row_text(rest, false, t.len() as int)
        } else {
            seq![32u8] + t + row_text(rest, false, col + 1 + t.len())
        }
    }
}

/// The text of all rows, each ended by a line break.
pub open spec fn body_text(rows: Seq<Seq<Rgb8>>) -> Seq<u8>
    decreases rows.len(),
{
    if rows.len() == 0 {
        Seq::empty()
    } else {
        row_text(rows[0], true, 0) + seq![10u8] + body_text(rows.drop_first())
    }
}

/// `P3`, the width and height, and the largest channel value `255`, each on a
/// line of its own.
pub open spec fn header_text(width: nat, height: nat) -> Seq<u8> {
    seq![80u8, 51u8, 10u8] + decimal(width) + seq![32u8] + decimal(height) + seq![
        10u8,
        50u8,
        53u8,
        53u8,
        10u8,
    ]
}

/// The whole image file for a canvas.
pub open spec fn ppm_text(c: Canvas<Rgb8>) -> Seq<u8> {
    header_text(c.spec_width(), c.spec_height()) + body_text(c.rows())
}

/// Some byte of `s` from index `i` to index `j`, both included, is a line
/// break.
pub open spec fn has_break(s: Seq<u8>, i: int, j: int) -> bool {
    exists|k: int| i <= k <= j && 0 <= k < s.len() && s[k] == 10u8
}

/// No line of `s` is longer than `MAX_LINE_LENGTH` bytes: every
/// `MAX_LINE_LENGTH + 1` consecutive bytes hold a line break.
pub open spec fn short_lines(s: Seq<u8>) -> bool {
    forall|i: int|
        0 <= i && i + MAX_LINE_LENGTH < s.len() ==> #[trigger] has_break(
            s,
            i,
            i + MAX_LINE_LENGTH,
        )
}

/// The number of bytes after the last line break of `s` (all of them if it
/// has none).
pub open spec fn line_tail(s: Seq<u8>) -> nat
    decreases s.len(),
{
    if s.len() == 0 {
        0
    } else if s.last() == 10u8 {
        0
    } else {
        line_tail(s.drop_last()) + 1
    }
}

/// `10` to the power `k`.
pub open spec fn pow10(k: nat) -> nat
    decreases k,
{
    if k == 0 {
        1
    } else {
        10 * pow10((k - 1) as nat)
    }
}

proof fn lemma_line_tail(s: Seq<u8>)
    ensures
        line_tail(s) <= s.len(),
        line_tail(s) < s.len() ==> s[s.len() - 1 - line_tail(s)] == 10u8,
    decreases s.len(),
{
    if s.len() > 0 && s.last() != 10u8 {
        lemma_line_tail(s.drop_last());
    }
}

proof fn lemma_push_byte(s: Seq<u8>, b: u8)
    requires
        short_lines(s),
        line_tail(s) <= MAX_LINE_LENGTH,
        b == 10u8 || line_tail(s) < MAX_LINE_LENGTH,
    ensures
        short_lines(s.push(b)),
        line_tail(s.push(b)) == (if b == 10u8 {
            0
        } else {
            line_tail(s) + 1
        }),
{
    let t = s.push(b);
    assert(t.drop_last() =~= s);
    lemma_line_tail(s);
    assert forall|i: int| 0 <= i && i + MAX_LINE_LENGTH < t.len() implies #[trigger] has_break(
        t,
        i,
        i + MAX_LINE_LENGTH,
    ) by {
        if i + MAX_LINE_LENGTH < s.len() {
            assert(has_break(s, i, i + MAX_LINE_LENGTH));
            let k = choose|k: int| i <= k <= i + MAX_LINE_LENGTH && 0 <= k < s.len() && s[k] == 10u8;
            assert(t[k] == 10u8);
        } else if b == 10u8 {
            assert(t[s.len() as int] == 10u8);
        } else {
            let k = s.len() - 1 - line_tail(s);
            assert(t[k] == 10u8);
        }
    }
}

proof fn lemma_push_text(s: Seq<u8>, t: Seq<u8>)
    requires
        short_lines(s),
        line_tail(s) + t.len() <= MAX_LINE_LENGTH,
        forall|k: int| 0 <= k < t.len() ==> t[k] != 10u8,
    ensures
        short_lines(s + t),
        line_tail(s + t) == line_tail(s) + t.len(),
    decreases t.len(),
{
    if t.len() == 0 {
        assert(s + t =~= s);
    } else {
        let u = t.drop_last();
        lemma_push_text(s, u);
        lemma_push_byte(s + u, t.last());
        assert((s + u).push(t.last()) =~= s + t);
    }
}

proof fn lemma_decimal_digits(n: nat)
    ensures
        forall|k: int| 0 <= k < decimal(n).len() ==> 48 <= #[trigger] decimal(n)[k] <= 57,
    decreases n,
{
    if n >= 10 {
        lemma_decimal_digits(n / 10);
        let d = decimal(n / 10);
        assert(decimal(n) == d.push((48 + n % 10) as u8));
        assert forall|k: int| 0 <= k < decimal(n).len() implies 48 <= #[trigger] decimal(n)[k]
            <= 57 by {
            if k < d.len() {
                assert(decimal(n)[k] == d[k]);
            }
        }
    }
}

proof fn lemma_decimal_len_below(n: nat, k: nat)
    requires
        1 <= k,
        n < pow10(k),
    ensures
        decimal(n).len() <= k,
    decreases k,
{
    if n >= 10 {
        assert(n / 10 < pow10((k - 1) as nat));
        if k == 1 {
            assert(pow10(1) == 10) by {
                reveal_with_fuel(pow10, 2);
            }
        } else {
            lemma_decimal_len_below(n / 10, (k - 1) as nat);
        }
    }
}

proof fn lemma_pixel_text(p: Rgb8)
    ensures
        pixel_text(p).len() <= 11,
        forall|k: int| 0 <= k < pixel_text(p).len() ==> #[trigger] pixel_text(p)[k] != 10u8,
{
    lemma_decimal_len(p.r as nat);
    lemma_decimal_len(p.g as nat);
    lemma_decimal_len(p.b as nat);
    lemma_decimal_digits(p.r as nat);
    lemma_decimal_digits(p.g as nat);
    lemma_decimal_digits(p.b as nat);
    let t = pixel_text(p);
    assert forall|k: int| 0 <= k < t.len() implies #[trigger] t[k] != 10u8 by {
        let a = decimal(p.r as nat).len() as int;
        let b = decimal(p.g as nat).len() as int;
        if k < a {
            assert(t[k] == decimal(p.r as nat)[k]);
        } else if k == a {
        } else if k < a + 1 + b {
            assert(t[k] == decimal(p.g as nat)[k - a - 1]);
        } else if k == a + 1 + b {
        } else {
            assert(t[k] == decimal(p.b as nat)[k - a - 2 - b]);
        }
    }
}

proof fn lemma_header_lines(w: nat, h: nat)
    requires
        w < pow10(20),
        h < pow10(20),
    ensures
        short_lines(header_text(w, h)),
        line_tail(header_text(w, h)) == 0,
{
    lemma_decimal_len_below(w, 20);
    lemma_decimal_len_below(h, 20);
    lemma_decimal_digits(w);
    lemma_decimal_digits(h);
    let s0 = Seq::<u8>::empty();
    let s1 = s0 + seq![80u8, 51u8];
    lemma_push_text(s0, seq![80u8, 51u8]);
    let s2 = s1.push(10u8);
    lemma_push_byte(s1, 10u8);
    let s3 = s2 + decimal(w);
    lemma_push_text(s2, decimal(w));
    let s4 = s3 + seq![32u8];
    lemma_push_text(s3, seq![32u8]);
    let s5 = s4 + decimal(h);
    lemma_push_text(s4, decimal(h));
    let s6 = s5.push(10u8);
    lemma_push_byte(s5, 10u8);
    let s7 = s6 + seq![50u8, 53u8, 53u8];
    lemma_push_text(s6, seq![50u8, 53u8, 53u8]);
    lemma_push_byte(s7, 10u8);
    assert(s7.push(10u8) =~= header_text(w, h));
}

proof fn lemma_usize_below_pow10()
    ensures
        usize::MAX < pow10(20),
{
    assert(pow10(20) == 100000000000000000000nat) by {
        reveal_with_fuel(pow10, 21);
    }
}

proof fn lemma_decimal_len(n: nat)
    requires
        n < 256,
    ensures
        1 <= decimal(n).len() <= 3,
{
    if n >= 10 {
        let m = n / 10;
        if m >= 10 {
            assert(m / 10 < 10);
            assert(decimal(m / 10).len() == 1);
        }
        assert(1 <= decimal(m).len() <= 2);
    }
}

/// Appends the decimal digits of `n`.
fn push_decimal(out: &mut Vec<u8>, n: usize)
    ensures
        final(out)@ == old(out)@ + decimal(n as nat),
    decreases n,
{
    if n >= 10 {
        push_decimal(out, n / 10);
    }
    out.push((48 + n % 10) as u8);
    assert(final(out)@ =~= old(out)@ + decimal(n as nat));
}

/// Appends the text of one pixel.
fn push_pixel(out: &mut Vec<u8>, p: Rgb8)
    ensures
        final(out)@ == old(out)@ + pixel_text(p),
{
    push_decimal(out, p.r as usize);
    out.push(32u8);
    push_decimal(out, p.g as usize);
    out.push(32u8);
    push_decimal(out, p.b as usize);
    assert(final(out)@ =~= old(out)@ + pixel_text(p));
}

impl Canvas<Rgb8> {
    /// Appends the text of row `y` (without its final line break).
    fn push_row(&self, out: &mut Vec<u8>, y: usize)
        requires
            self.wf(),
            y < self.spec_height(),
            short_lines(old(out)@),
            line_tail(old(out)@) == 0,
        ensures
            final(out)@ == old(out)@ + row_text(self.rows()[y as int], true, 0),
            short_lines(final(out)@),
            line_tail(final(out)@) <= MAX_LINE_LENGTH,
    {
        let ghost row = self.rows()[y as int];
        let w = self.width();
        let mut col: usize = 0;
        let mut x: usize = 0;
        assert(row.skip(0) =~= row);
        while x < w
            invariant
                self.wf(),
                y < self.spec_height(),
                w == self.spec_width(),
                row == self.rows()[y as int],
                row.len() == w,
                x <= w,
                col <= MAX_LINE_LENGTH,
                x == 0 ==> col == 0,
                short_lines(out@),
                line_tail(out@) == col,
                out@ + row_text(row.skip(x as int), x == 0, col as int) == old(out)@ + row_text(
                    row,
                    true,
                    0,
                ),
            decreases w - x,
        {
            let ghost rest = row.skip(x as int);
            assert(rest.drop_first() =~= row.skip(x + 1));
            assert(rest[0] == row[x as int]);
            let p = self.pixel_at(x, y);
            let mut text: Vec<u8> = Vec::new();
            push_pixel(&mut text, p);
            proof {
                assert(text@ =~= pixel_text(p));
                lemma_pixel_text(p);
            }
            if x > 0 {
                if col >= MAX_LINE_LENGTH {
                    let ghost before = out@;
                    out.push(10u8);
                    proof {
                        lemma_push_byte(before, 10u8);
                    }
                    col = 0;
                } else {
                    let ghost before = out@;
                    out.push(32u8);
                    proof {
                        lemma_push_byte(before, 32u8);
                    }
                    col += 1;
                    if col + text.len() > MAX_LINE_LENGTH {
                        let ghost spaced = out@;
                        out.push(10u8);
                        proof {
                            lemma_push_byte(spaced, 10u8);
                        }
                        col = 0;
                    }
                }
            }
            let ghost before_text = out@;
            let ghost t = text@;
            col += text.len();
            out.append(&mut text);
            proof {
                lemma_push_text(before_text, t);
            }
            x += 1;
        }
        assert(row.skip(x as int) =~= Seq::<Rgb8>::empty());
    }

    /// The canvas as a plain-text image file: the header, then each row's
    /// pixels as decimal channel triples, wrapped so that no line is longer
    /// than `MAX_LINE_LENGTH`, each row ended by a line break.
    pub fn to_ppm(&self) -> (r: Vec<u8>)
        requires
            self.wf(),
        ensures
            r@ == ppm_text(*self),
            short_lines(r@),
    {
        let mut out: Vec<u8> = Vec::new();
        out.push(80u8);
        out.push(51u8);
        out.push(10u8);
        push_decimal(&mut out, self.width());
        out.push(32u8);
        push_decimal(&mut out, self.height());
        out.push(10u8);
        out.push(50u8);
        out.push(53u8);
        out.push(53u8);
        out.push(10u8);
        let ghost head = out@;
        assert(head =~= header_text(self.spec_width(), self.spec_height()));
        proof {
            lemma_usize_below_pow10();
            lemma_header_lines(self.spec_width(), self.spec_height());
        }
        let ghost rows = self.rows();
        let h = self.height();
        let mut y: usize = 0;
        assert(rows.skip(0) =~= rows);
        while y < h
            invariant
                self.wf(),
                h == self.spec_height(),
                rows == self.rows(),
                rows.len() == h,
                y <= h,
                out@ + body_text(rows.skip(y as int)) == ppm_text(*self),
                short_lines(out@),
                line_tail(out@) == 0,
            decreases h - y,
        {
            let ghost rest = rows.skip(y as int);
            assert(rest.drop_first() =~= rows.skip(y + 1));
            assert(rest[0] == rows[y as int]);
            self.push_row(&mut out, y);
            let ghost row_done = out@;
            out.push(10u8);
            proof {
                lemma_push_byte(row_done, 10u8);
            }
            y += 1;
            assert(out@ + body_text(rows.skip(y as int)) =~= ppm_text(*self));
        }
        assert(rows.skip(y as int) =~= Seq::<Seq<Rgb8>>::empty());
        assert(out@ =~= ppm_text(*self));
        out
    }
}

} // verus!
