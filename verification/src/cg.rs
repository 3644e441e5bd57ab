//! Rasterization: Bresenham line traversal.
//!
//! Given two integer endpoints, the rasterizer produces every pixel of the
//! best integer approximation of the straight segment between them, each
//! exactly once, ordered along the major axis.

use vstd::prelude::*;

verus! {

/// Absolute value of a mathematical integer.
pub open spec fn abs_i(x: int) -> int {
    if x < 0 {
        -x
    } else {
        x
    }
}

/// Is the segment steep, that is, is its vertical extent larger than its
/// horizontal extent?
pub open spec fn is_steep(p0: (int, int), p1: (int, int)) -> bool {
    abs_i(p1.0 - p0.0) < abs_i(p1.1 - p0.1)
}

/// The point with its two coordinates exchanged.
pub open spec fn swap_xy(p: (int, int)) -> (int, int) {
    (p.1, p.0)
}

/// How many minor-axis steps the traversal has taken after `i` major-axis
/// steps, for a line with extents `dx >= dy >= 0`: the error accumulator
/// advances the minor coordinate exactly `(2*i*dy + dx - 1) / (2*dx)` times.
pub open spec fn bres_minor(i: int, dx: int, dy: int) -> int {
    if dx == 0 {
        0
    } else {
        (2 * i * dy + dx - 1) / (2 * dx)
    }
}

/// The pixels of the segment from `p0` to `p1`, ordered along the major
/// axis: the traversal works in transposed space for a steep segment and
/// from the endpoint with the smaller major coordinate.
pub open spec fn line_pixels(p0: (int, int), p1: (int, int)) -> Seq<(int, int)> {
    let steep = is_steep(p0, p1);
    let a0 = if steep {
        swap_xy(p0)
    } else {
        p0
    };
    let a1 = if steep {
        swap_xy(p1)
    } else {
        p1
    };
    let b0 = if a0.0 > a1.0 {
        a1
    } else {
        a0
    };
    let b1 = if a0.0 > a1.0 {
        a0
    } else {
        a1
    };
    let dx = b1.0 - b0.0;
    let dy = abs_i(b1.1 - b0.1);
    let step = if b0.1 > b1.1 {
        -1int
    } else {
        1int
    };
    Seq::new(
        (dx + 1) as nat,
        |i: int|
            {
                let q = (b0.0 + i, b0.1 + step * bres_minor(i, dx, dy));
                if steep {
                    swap_xy(q)
                } else {
                    q
                }
            },
    )
}

/// A sequence of concrete pixels, as mathematical pairs.
pub open spec fn pix_ints(s: Seq<(i32, i32)>) -> Seq<(int, int)> {
    s.map_values(|p: (i32, i32)| (p.0 as int, p.1 as int))
}

/// The accumulator bounds pin down the closed form of the minor step count.
proof fn lemma_minor_from_bounds(i: int, dx: int, dy: int, n: int)
    requires
        dx > 0,
        -dx < 2 * i * dy - 2 * n * dx <= dx,
    ensures
        n == bres_minor(i, dx, dy),
{
    let x = 2 * i * dy + dx - 1;
    let d = 2 * dx;
    let r = x - n * d;
    assert(x == n * d + r);
    assert(0 <= r < d) by (nonlinear_arith)
        requires
            d == 2 * dx,
            r == x - n * d,
            x == 2 * i * dy + dx - 1,
            -dx < 2 * i * dy - 2 * n * dx <= dx,
    ;
    vstd::arithmetic::div_mod::lemma_fundamental_div_mod_converse(x, d, n, r);
}

/// The minor step count stays between `0` and `dy`.
proof fn lemma_minor_range(i: int, dx: int, dy: int)
    requires
        0 <= dy <= dx,
        0 <= i <= dx,
    ensures
        0 <= bres_minor(i, dx, dy) <= dy,
{
    if dx > 0 {
        let x = 2 * i * dy + dx - 1;
        let d = 2 * dx;
        vstd::arithmetic::div_mod::lemma_fundamental_div_mod(x, d);
        vstd::arithmetic::div_mod::lemma_mod_bound(x, d);
        assert(0 <= x / d <= dy) by (nonlinear_arith)
            requires
                x == d * (x / d) + x % d,
                0 <= x % d < d,
                d == 2 * dx,
                x == 2 * i * dy + dx - 1,
                0 <= dy <= dx,
                0 <= i <= dx,
                dx > 0,
        ;
    }
}

/// Rasterizes the segment from `p0` to `p1`: returns every pixel of the
/// segment's best integer approximation, each exactly once, ordered along
/// the major axis (so from `p1` towards `p0` when `p1` has the smaller major
/// coordinate).
pub fn bresenham(p0: (i32, i32), p1: (i32, i32)) -> (pixels: Vec<(i32, i32)>)
    ensures
        pix_ints(pixels@) == line_pixels((p0.0 as int, p0.1 as int), (p1.0 as int, p1.1 as int)),
{
    let ghost gp0: (int, int) = (p0.0 as int, p0.1 as int);
    let ghost gp1: (int, int) = (p1.0 as int, p1.1 as int);
    let mut x0: i64 = p0.0 as i64;
    let mut y0: i64 = p0.1 as i64;
    let mut x1: i64 = p1.0 as i64;
    let mut y1: i64 = p1.1 as i64;

    let adx: i64 = if x1 > x0 {
        x1 - x0
    } else {
        x0 - x1
    };
    let ady: i64 = if y1 > y0 {
        y1 - y0
    } else {
        y0 - y1
    };
    let steep = adx < ady;
    if steep {
        let t0: i64 = x0;
        x0 = y0;
        y0 = t0;
        let t1: i64 = x1;
        x1 = y1;
        y1 = t1;
    }
    if x0 > x1 {
        let tx: i64 = x0;
        x0 = x1;
        x1 = tx;
        let ty: i64 = y0;
        y0 = y1;
        y1 = ty;
    }
    proof {
        assert(steep == is_steep(gp0, gp1));
    }
    let ghost a0: (int, int) = if steep {
        swap_xy(gp0)
    } else {
        gp0
    };
    let ghost a1: (int, int) = if steep {
        swap_xy(gp1)
    } else {
        gp1
    };
    let ghost b0: (int, int) = if a0.0 > a1.0 {
        a1
    } else {
        a0
    };
    let ghost b1: (int, int) = if a0.0 > a1.0 {
        a0
    } else {
        a1
    };

    let dx: i64 = x1 - x0;
    let dx2: i64 = dx * 2;
    let dy: i64 = if y1 > y0 {
        y1 - y0
    } else {
        y0 - y1
    };
    let slope: i64 = dy * 2;
    let mut slope_sum: i64 = 0;
    let step_y: i64 = if y0 > y1 {
        -1
    } else {
        1
    };

    let mut x: i64 = x0;
    let mut y: i64 = y0;
    let mut pixels: Vec<(i32, i32)> = Vec::new();

    proof {
        assert(x0 == b0.0 && y0 == b0.1 && x1 == b1.0 && y1 == b1.1);
        assert(dy <= dx);
        assert(step_y * (y0 - y0) == 0 && 2 * (x0 - x0) * dy == 0 && 2 * 0 * dx == 0)
            by (nonlinear_arith);
        if dx > 0 {
            lemma_minor_from_bounds(0, dx as int, dy as int, 0);
        }
    }

    while x <= x1
        invariant
            a0 == (if steep {
                swap_xy(gp0)
            } else {
                gp0
            }),
            a1 == (if steep {
                swap_xy(gp1)
            } else {
                gp1
            }),
            b0 == (if a0.0 > a1.0 {
                a1
            } else {
                a0
            }),
            b1 == (if a0.0 > a1.0 {
                a0
            } else {
                a1
            }),
            x0 == b0.0 && y0 == b0.1 && x1 == b1.0 && y1 == b1.1,
            i32::MIN <= x0 <= i32::MAX && i32::MIN <= y0 <= i32::MAX,
            i32::MIN <= x1 <= i32::MAX && i32::MIN <= y1 <= i32::MAX,
            dx == b1.0 - b0.0,
            0 <= dy <= dx,
            dy == abs_i(b1.1 - b0.1),
            dx2 == 2 * dx,
            slope == 2 * dy,
            step_y == (if b0.1 > b1.1 {
                -1int
            } else {
                1int
            }),
            x0 <= x <= x1 + 1,
            step_y * (y - y0) == bres_minor(x - x0, dx as int, dy as int),
            x <= x1 ==> 0 <= step_y * (y - y0) <= dy,
            slope_sum == 2 * (x - x0) * dy - 2 * (step_y * (y - y0)) * dx,
            dx == 0 ==> slope_sum == 0,
            dx > 0 ==> -dx < slope_sum <= dx,
            pixels@.len() == x - x0,
            pix_ints(pixels@) =~= line_pixels(gp0, gp1).take(x - x0),
            steep == is_steep(gp0, gp1),
        decreases x1 + 1 - x,
    {
        let ghost i: int = x - x0;
        let ghost n: int = step_y * (y - y0);
        proof {
            assert(y == b0.1 + step_y * n) by (nonlinear_arith)
                requires
                    n == step_y * (y - y0),
                    y0 == b0.1,
                    step_y == 1 || step_y == -1,
            ;
            assert(i32::MIN <= y <= i32::MAX) by (nonlinear_arith)
                requires
                    y == y0 + step_y * n,
                    0 <= n <= dy,
                    step_y == 1 || step_y == -1,
                    step_y == 1 ==> y1 - y0 == dy,
                    step_y == -1 ==> y0 - y1 == dy,
                    i32::MIN <= y0 <= i32::MAX,
                    i32::MIN <= y1 <= i32::MAX,
            ;
            assert(line_pixels(gp0, gp1).len() == dx + 1);
            assert(line_pixels(gp0, gp1)[i] == (if steep {
                swap_xy((b0.0 + i, b0.1 + step_y * bres_minor(i, dx as int, dy as int)))
            } else {
                (b0.0 + i, b0.1 + step_y * bres_minor(i, dx as int, dy as int))
            }));
        }
        if steep {
            pixels.push((y as i32, x as i32));
        } else {
            pixels.push((x as i32, y as i32));
        }
        proof {
            assert(pix_ints(pixels@) =~= line_pixels(gp0, gp1).take(i + 1));
        }
        slope_sum += slope;
        proof {
            assert(2 * (i + 1) * dy == 2 * i * dy + 2 * dy) by (nonlinear_arith);
        }
        if dx < slope_sum {
            y += step_y;
            slope_sum -= dx2;
            proof {
                assert(step_y * (y - y0) == n + 1) by (nonlinear_arith)
                    requires
                        n == step_y * ((y - step_y) - y0),
                        step_y == 1 || step_y == -1,
                ;
                assert(2 * (i + 1) * dy - 2 * (n + 1) * dx == 2 * (i + 1) * dy - 2 * n * dx - 2
                    * dx) by (nonlinear_arith);
                lemma_minor_from_bounds(i + 1, dx as int, dy as int, n + 1);
                if x + 1 <= x1 {
                    lemma_minor_range(i + 1, dx as int, dy as int);
                }
            }
        } else {
            proof {
                if dx > 0 {
                    lemma_minor_from_bounds(i + 1, dx as int, dy as int, n);
                    if x + 1 <= x1 {
                        lemma_minor_range(i + 1, dx as int, dy as int);
                    }
                } else {
                    assert(dy == 0 && slope == 0 && slope_sum == 0);
                    assert(bres_minor(i + 1, 0, 0) == 0);
                }
            }
        }
        x += 1;
    }
    proof {
        assert(x - x0 == dx + 1);
        assert(line_pixels(gp0, gp1).len() == dx + 1);
        assert(line_pixels(gp0, gp1).take(dx + 1) =~= line_pixels(gp0, gp1));
    }
    pixels
}

/// The larger of two mathematical integers.
pub open spec fn max_i(a: int, b: int) -> int {
    if a < b {
        b
    } else {
        a
    }
}

/// The smaller of two mathematical integers.
pub open spec fn min_i(a: int, b: int) -> int {
    if a < b {
        a
    } else {
        b
    }
}

/// The traversal of a segment visits `max(|dx|, |dy|) + 1` pixels, visits no
/// pixel twice, and starts and ends at the segment's two endpoints.
pub proof fn lemma_line_count_endpoints(p0: (int, int), p1: (int, int))
    ensures
        line_pixels(p0, p1).len() == max_i(abs_i(p1.0 - p0.0), abs_i(p1.1 - p0.1)) + 1,
        (line_pixels(p0, p1).first() == p0 && line_pixels(p0, p1).last() == p1) || (line_pixels(
            p0,
            p1,
        ).first() == p1 && line_pixels(p0, p1).last() == p0),
        forall|i: int, j: int|
            0 <= i < j < line_pixels(p0, p1).len() ==> line_pixels(p0, p1)[i] != line_pixels(
                p0,
                p1,
            )[j],
{
    let s = line_pixels(p0, p1);
    let steep = is_steep(p0, p1);
    let a0 = if steep {
        swap_xy(p0)
    } else {
        p0
    };
    let a1 = if steep {
        swap_xy(p1)
    } else {
        p1
    };
    let b0 = if a0.0 > a1.0 {
        a1
    } else {
        a0
    };
    let b1 = if a0.0 > a1.0 {
        a0
    } else {
        a1
    };
    let dx = b1.0 - b0.0;
    let dy = abs_i(b1.1 - b0.1);
    let step = if b0.1 > b1.1 {
        -1int
    } else {
        1int
    };
    assert(0 <= dy <= dx);
    if dx > 0 {
        lemma_minor_from_bounds(0, dx, dy, 0);
        vstd::arithmetic::div_mod::lemma_fundamental_div_mod_converse(
            2 * dx * dy + dx - 1,
            2 * dx,
            dy,
            dx - 1,
        );
        assert(2 * dx * dy + dx - 1 == dy * (2 * dx) + (dx - 1)) by (nonlinear_arith);
        assert(bres_minor(dx, dx, dy) == dy);
    }
    assert(step * bres_minor(0, dx, dy) == 0) by (nonlinear_arith)
        requires
            bres_minor(0, dx, dy) == 0,
    ;
    assert(b0.1 + step * bres_minor(dx, dx, dy) == b1.1) by (nonlinear_arith)
        requires
            bres_minor(dx, dx, dy) == dy,
            dy == abs_i(b1.1 - b0.1),
            step == (if b0.1 > b1.1 {
                -1int
            } else {
                1int
            }),
    ;
    assert(s.first() == (if steep {
        swap_xy(b0)
    } else {
        b0
    }));
    assert(s.last() == (if steep {
        swap_xy(b1)
    } else {
        b1
    }));
    assert forall|i: int, j: int| 0 <= i < j < s.len() implies s[i] != s[j] by {
        assert(s[i] == (if steep {
            swap_xy((b0.0 + i, b0.1 + step * bres_minor(i, dx, dy)))
        } else {
            (b0.0 + i, b0.1 + step * bres_minor(i, dx, dy))
        }));
        assert(s[j] == (if steep {
            swap_xy((b0.0 + j, b0.1 + step * bres_minor(j, dx, dy)))
        } else {
            (b0.0 + j, b0.1 + step * bres_minor(j, dx, dy))
        }));
    }
}

/// Traversing a segment from either end visits exactly the same pixels: the
/// pixel sequence itself does not depend on the order of the endpoints,
/// because the traversal always walks from the endpoint with the smaller
/// major coordinate.
pub proof fn lemma_line_symmetric(p0: (int, int), p1: (int, int))
    ensures
        line_pixels(p0, p1) == line_pixels(p1, p0),
{
    let s = line_pixels(p0, p1);
    let t = line_pixels(p1, p0);
    assert(is_steep(p0, p1) == is_steep(p1, p0));
    let steep = is_steep(p0, p1);
    let a0 = if steep {
        swap_xy(p0)
    } else {
        p0
    };
    let a1 = if steep {
        swap_xy(p1)
    } else {
        p1
    };
    if a0.0 == a1.0 {
        assert(p0 == p1);
        assert(s =~= t);
    } else {
        let b0 = if a0.0 > a1.0 {
            a1
        } else {
            a0
        };
        let b1 = if a0.0 > a1.0 {
            a0
        } else {
            a1
        };
        let dx = b1.0 - b0.0;
        let dy = abs_i(b1.1 - b0.1);
        let step = if b0.1 > b1.1 {
            -1int
        } else {
            1int
        };
        assert(s.len() == dx + 1 && t.len() == dx + 1);
        assert forall|i: int| 0 <= i < s.len() implies s[i] == t[i] by {
            assert(s[i] == (if steep {
                swap_xy((b0.0 + i, b0.1 + step * bres_minor(i, dx, dy)))
            } else {
                (b0.0 + i, b0.1 + step * bres_minor(i, dx, dy))
            }));
            assert(t[i] == (if steep {
                swap_xy((b0.0 + i, b0.1 + step * bres_minor(i, dx, dy)))
            } else {
                (b0.0 + i, b0.1 + step * bres_minor(i, dx, dy))
            }));
        }
        assert(s =~= t);
    }
}

/// Every visited pixel lies in the bounding box of the two endpoints.
pub proof fn lemma_line_in_box(p0: (int, int), p1: (int, int))
    ensures
        forall|k: int|
            0 <= k < line_pixels(p0, p1).len() ==> min_i(p0.0, p1.0)
                <= (#[trigger] line_pixels(p0, p1)[k]).0 <= max_i(p0.0, p1.0) && min_i(p0.1, p1.1)
                <= line_pixels(p0, p1)[k].1 <= max_i(p0.1, p1.1),
{
    let s = line_pixels(p0, p1);
    let steep = is_steep(p0, p1);
    let a0 = if steep {
        swap_xy(p0)
    } else {
        p0
    };
    let a1 = if steep {
        swap_xy(p1)
    } else {
        p1
    };
    let b0 = if a0.0 > a1.0 {
        a1
    } else {
        a0
    };
    let b1 = if a0.0 > a1.0 {
        a0
    } else {
        a1
    };
    let dx = b1.0 - b0.0;
    let dy = abs_i(b1.1 - b0.1);
    let step = if b0.1 > b1.1 {
        -1int
    } else {
        1int
    };
    assert forall|k: int|
        0 <= k < s.len() implies min_i(p0.0, p1.0) <= (#[trigger] s[k]).0 <= max_i(p0.0, p1.0)
        && min_i(p0.1, p1.1) <= s[k].1 <= max_i(p0.1, p1.1) by {
        lemma_minor_range(k, dx, dy);
        let n = bres_minor(k, dx, dy);
        assert(min_i(b0.1, b1.1) <= b0.1 + step * n <= max_i(b0.1, b1.1)) by (nonlinear_arith)
            requires
                0 <= n <= dy,
                dy == abs_i(b1.1 - b0.1),
                step == (if b0.1 > b1.1 {
                    -1int
                } else {
                    1int
                }),
        ;
        assert(s[k] == (if steep {
            swap_xy((b0.0 + k, b0.1 + step * n))
        } else {
            (b0.0 + k, b0.1 + step * n)
        }));
    }
}

} // verus!
