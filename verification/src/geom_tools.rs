use vstd::prelude::*;
use crate::math::IVec2;

verus! {

/// What `_circle_points` gives: nothing for a negative radius, otherwise the
/// leftmost and rightmost points of the circle, each twice (its scan of the
/// rows stops after the first column).
pub open spec fn spec_circle_points(center: IVec2, radius: i32) -> Seq<IVec2> {
    if radius < 0 {
        Seq::empty()
    } else {
        let l = IVec2 { x: (center.x - radius) as i32, y: center.y };
        let r = IVec2 { x: (center.x + radius) as i32, y: center.y };
        seq![l, l, r, r]
    }
}

// Gonna maybe be used for fluid sim in the future
pub fn _circle_points(center: IVec2, radius: i32) -> (points: Vec<IVec2>)
    requires
        radius <= 32767,
        radius >= -32767,
        i32::MIN <= center.x - radius <= i32::MAX,
        i32::MIN <= center.x + radius <= i32::MAX,
        center.x < i32::MAX,
        i32::MIN <= center.y - radius <= i32::MAX,
        i32::MIN <= center.y + radius <= i32::MAX,
        center.y < i32::MAX,
    ensures
        points@ == spec_circle_points(center, radius),
{
    let mut points: Vec<IVec2> = Vec::new();

    let mut x = center.x - radius;
    let mut y = center.y - radius;

    let ghost four = spec_circle_points(center, radius);
    while x <= center.x
        invariant
            radius <= 32767,
            radius >= -32767,
            center.x < i32::MAX,
            center.y < i32::MAX,
            center.x + radius <= i32::MAX,
            center.y + radius <= i32::MAX,
            four == spec_circle_points(center, radius),
            center.x - radius <= x,
            radius >= 0 ==> x <= center.x + 1,
            x == center.x - radius ==> y == center.y - radius && points@.len() == 0,
            x != center.x - radius ==> y == center.y + 1 && points@ == four,
        decreases center.x + 1 - x,
    {
        while y <= center.y
            invariant
                radius <= 32767,
                radius >= -32767,
                center.y < i32::MAX,
                center.x + radius <= i32::MAX,
                center.y + radius <= i32::MAX,
                center.x - radius <= x <= center.x,
                four == spec_circle_points(center, radius),
                x == center.x - radius ==> center.y - radius <= y <= center.y + 1 && points@ == (if y
                    > center.y {
                    four
                } else {
                    Seq::empty()
                }),
                x != center.x - radius ==> y == center.y + 1 && points@ == four,
            decreases center.y + 1 - y,
        {
            assert(x == center.x - radius);
            let dx = x - center.x;
            let dy = y - center.y;
            assert(dx * dx == radius * radius) by (nonlinear_arith)
                requires
                    dx == -radius,
            ;
            assert(0 <= dy * dy <= 1073676289) by (nonlinear_arith)
                requires
                    -32767 <= dy <= 0,
            ;
            assert(0 <= radius * radius <= 1073676289) by (nonlinear_arith)
                requires
                    -32767 <= radius <= 32767,
            ;
            assert(dy * dy == 0 <==> dy == 0) by (nonlinear_arith);
            if dx * dx + dy * dy <= radius * radius {
                let x_sym = center.x - (x - center.x);
                let y_sym = center.y - (y - center.y);

                points.push(IVec2::new(x, y));
                points.push(IVec2::new(x, y_sym));
                points.push(IVec2::new(x_sym, y));
                points.push(IVec2::new(x_sym, y_sym));
                assert(points@ =~= four);
            }
            y += 1;
        }
        x += 1;
    }

    points
}

} // verus!
