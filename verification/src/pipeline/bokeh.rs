//! The blur levels of the portrait bokeh.
use vstd::prelude::*;

verus! {

/// The three box-blur radii for a largest radius of `max_r` pixels: a third
/// (at least 1), two thirds (at least 2) and all of it (at least 3); none when
/// the largest radius is zero, in which case the frame is left sharp.
pub fn bokeh_blur_radii(max_r: usize) -> (radii: Option<(usize, usize, usize)>)
    requires
        max_r <= usize::MAX / 2,
    ensures
        max_r == 0 ==> radii is None,
        max_r > 0 ==> radii == Some((
            if max_r / 3 > 1 { max_r / 3 } else { 1 },
            if max_r * 2 / 3 > 2 { (max_r * 2 / 3) as usize } else { 2 },
            if max_r > 3 { max_r } else { 3 },
        )),
{
    if max_r == 0 {
        return None;
    }
    let a = max_r / 3;
    let b = max_r * 2 / 3;
    let r1 = if a > 1 { a } else { 1 };
    let r2 = if b > 2 { b } else { 2 };
    let r3 = if max_r > 3 { max_r } else { 3 };
    Some((r1, r2, r3))
}

} // verus!
