use vstd::prelude::*;

use crate::canvas::Canvas;

verus! {

/// The pixels that a render visits: every column but the last and every row
/// but the last.
pub open spec fn is_rendered(x: int, y: int, hsize: int, vsize: int) -> bool {
    0 <= x < hsize - 1 && 0 <= y < vsize - 1
}

/// Renders an `hsize`×`vsize` image: row by row, top to bottom and left to
/// right, each visited pixel gets the colour that `shade(x, y)` returns. The
/// last column and the last row are not visited and keep `blank`.
pub fn render_pixels<P: Copy, F: Fn(usize, usize) -> P>(
    hsize: usize,
    vsize: usize,
    blank: P,
    shade: F,
) -> (r: Canvas<P>)
    requires
        1 <= hsize,
        1 <= vsize,
        hsize * vsize <= usize::MAX,
        forall|x: usize, y: usize|
            is_rendered(x as int, y as int, hsize as int, vsize as int) ==> #[trigger] shade.requires(
                (x, y),
            ),
    ensures
        r.wf(),
        r.spec_width() == hsize,
        r.spec_height() == vsize,
        forall|x: usize, y: usize|
            #![trigger r.spec_pixel(x as int, y as int)]
            is_rendered(x as int, y as int, hsize as int, vsize as int) ==> shade.ensures(
                (x, y),
                r.spec_pixel(x as int, y as int),
            ),
        forall|x: int, y: int|
            0 <= x < hsize && 0 <= y < vsize && !is_rendered(x, y, hsize as int, vsize as int)
                ==> #[trigger] r.spec_pixel(x, y) == blank,
{
    let mut image = Canvas::new(hsize, vsize, blank);
    let mut y: usize = 0;
    while y < vsize - 1
        invariant
            1 <= hsize,
            1 <= vsize,
            y <= vsize - 1,
            image.wf(),
            image.spec_width() == hsize,
            image.spec_height() == vsize,
            forall|x: usize, y: usize|
                is_rendered(x as int, y as int, hsize as int, vsize as int) ==> #[trigger] shade.requires(
                    (x, y),
                ),
            forall|i: usize, j: usize|
                #![trigger image.spec_pixel(i as int, j as int)]
                is_rendered(i as int, j as int, hsize as int, vsize as int) && j < y
                    ==> shade.ensures((i, j), image.spec_pixel(i as int, j as int)),
            forall|i: int, j: int|
                0 <= i < hsize && 0 <= j < vsize && !(is_rendered(i, j, hsize as int, vsize as int)
                    && j < y) ==> #[trigger] image.spec_pixel(i, j) == blank,
        decreases vsize - 1 - y,
    {
        let mut x: usize = 0;
        while x < hsize - 1
            invariant
                1 <= hsize,
                1 <= vsize,
                y < vsize - 1,
                x <= hsize - 1,
                image.wf(),
                image.spec_width() == hsize,
                image.spec_height() == vsize,
                forall|x: usize, y: usize|
                    is_rendered(x as int, y as int, hsize as int, vsize as int)
                        ==> #[trigger] shade.requires((x, y)),
                forall|i: usize, j: usize|
                    #![trigger image.spec_pixel(i as int, j as int)]
                    is_rendered(i as int, j as int, hsize as int, vsize as int) && (j < y || (j
                        == y && i < x)) ==> shade.ensures(
                        (i, j),
                        image.spec_pixel(i as int, j as int),
                    ),
                forall|i: int, j: int|
                    0 <= i < hsize && 0 <= j < vsize && !(is_rendered(
                        i,
                        j,
                        hsize as int,
                        vsize as int,
                    ) && (j < y || (j == y && i < x))) ==> #[trigger] image.spec_pixel(i, j)
                        == blank,
            decreases hsize - 1 - x,
        {
            let color = shade(x, y);
            image.write_pixel(x, y, &color);
            x += 1;
        }
        y += 1;
    }
    image
}

} // verus!
