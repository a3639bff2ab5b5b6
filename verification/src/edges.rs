//! Edge normalization for segmented directional wires.
//!
//! Multi-segment wires (`H01`/`H02`/`H06` horizontal, `V01`/`V02`/`V06`
//! vertical) are named relative to a nominal tile position. Near a device
//! edge the nominal position would fall outside the grid, so the fabric
//! emits an alternate, irregular name there. Without correction the same
//! physical wire would receive two different canonical names depending on
//! which tile observes it, so these boundary encodings are rewritten to the
//! canonical mid-array encoding they represent, together with the logical
//! position the wire would have held away from the edge.

use vstd::prelude::*;
use crate::WireError;
use crate::digits::{is_digit, digit_val};

verus! {

/// The eight-character segmented directional shape
/// `<lead><dd><da|db><dd><dd>`.
pub open spec fn spec_hv_shape(s: Seq<char>, lead: char, da: char, db: char) -> bool {
    &&& s.len() == 8
    &&& s[0] == lead
    &&& is_digit(s[1])
    &&& is_digit(s[2])
    &&& (s[3] == da || s[3] == db)
    &&& is_digit(s[4])
    &&& is_digit(s[5])
    &&& is_digit(s[6])
    &&& is_digit(s[7])
}

/// A horizontal segmented wire `H<len><E|W><col><seg>`.
pub open spec fn spec_is_hwire(s: Seq<char>) -> bool {
    spec_hv_shape(s, 'H', 'E', 'W')
}

/// A vertical segmented wire `V<len><N|S><row><seg>`.
pub open spec fn spec_is_vwire(s: Seq<char>) -> bool {
    spec_hv_shape(s, 'V', 'N', 'S')
}

/// Span length encoded by the two digits after the lead character.
pub open spec fn hv_span(s: Seq<char>) -> int {
    digit_val(s[1]) * 10 + digit_val(s[2])
}

/// Segment index encoded by the last two digits.
pub open spec fn hv_seg(s: Seq<char>) -> int {
    digit_val(s[6]) * 10 + digit_val(s[7])
}

/// The wire name with its two segment-index digits replaced by `seg2`.
pub open spec fn reseg(s: Seq<char>, seg2: Seq<char>) -> Seq<char> {
    s.subrange(0, 6) + seg2
}

/// Edge normalization of a horizontal segmented wire owned by a tile in
/// column `tx`, on a device `max_x` columns wide. `None` is a grammar
/// violation: an unrecognized span, or a segment index that puts the
/// nominal position outside the representable grid.
pub open spec fn spec_handle_h(max_x: int, tx: int, wx: int, wy: int, wn: Seq<char>) -> Option<
    (Seq<char>, int, int),
> {
    let dir = wn[3];
    let seg = hv_seg(wn);
    if hv_span(wn) == 1 {
        if tx == max_x - 1 {
            if seg == 0 && wx + 1 <= u32::MAX {
                Some((reseg(wn, "01"@), wx + 1, wy))
            } else {
                None
            }
        } else {
            Some((wn, wx, wy))
        }
    } else if hv_span(wn) == 2 {
        if tx == 1 {
            if dir == 'E' && wx == 1 && seg == 2 {
                Some((reseg(wn, "01"@), wx - 1, wy))
            } else if dir == 'W' && wx == 1 && seg == 0 {
                Some((reseg(wn, "01"@), wx - 1, wy))
            } else {
                Some((wn, wx, wy))
            }
        } else if tx == max_x - 1 {
            if dir == 'E' && wx == max_x - 1 && seg == 0 {
                if wx + 1 <= u32::MAX {
                    Some((reseg(wn, "01"@), wx + 1, wy))
                } else {
                    None
                }
            } else if dir == 'W' && wx == max_x - 1 && seg == 2 {
                if wx + 1 <= u32::MAX {
                    Some((reseg(wn, "01"@), wx + 1, wy))
                } else {
                    None
                }
            } else {
                Some((wn, wx, wy))
            }
        } else {
            Some((wn, wx, wy))
        }
    } else if hv_span(wn) == 6 {
        if tx <= 5 {
            if dir == 'W' {
                if seg <= 3 && wx - (3 - seg) >= 0 {
                    Some((reseg(wn, "03"@), wx - (3 - seg), wy))
                } else {
                    None
                }
            } else {
                if seg >= 3 && wx - (seg - 3) >= 0 {
                    Some((reseg(wn, "03"@), wx - (seg - 3), wy))
                } else {
                    None
                }
            }
        } else if tx >= max_x - 5 {
            if dir == 'W' {
                if seg >= 3 && wx + (seg - 3) <= u32::MAX {
                    Some((reseg(wn, "03"@), wx + (seg - 3), wy))
                } else {
                    None
                }
            } else {
                if seg <= 3 && wx + (3 - seg) <= u32::MAX {
                    Some((reseg(wn, "03"@), wx + (3 - seg), wy))
                } else {
                    None
                }
            }
        } else {
            Some((wn, wx, wy))
        }
    } else {
        None
    }
}

/// Edge normalization of a vertical segmented wire owned by a tile in row
/// `ty`, on a device `max_y` rows tall; the vertical counterpart of
/// [`spec_handle_h`].
pub open spec fn spec_handle_v(max_y: int, ty: int, wx: int, wy: int, wn: Seq<char>) -> Option<
    (Seq<char>, int, int),
> {
    let dir = wn[3];
    let seg = hv_seg(wn);
    if hv_span(wn) == 1 {
        if ty == 1 {
            if wy == 1 && dir == 'N' && seg == 0 {
                Some((reseg(wn, "01"@), wx, wy - 1))
            } else if wy == 1 && dir == 'S' && seg == 1 {
                Some((reseg(wn, "01"@), wx, wy - 1))
            } else {
                Some((wn, wx, wy))
            }
        } else {
            Some((wn, wx, wy))
        }
    } else if hv_span(wn) == 2 {
        if ty == 1 {
            if dir == 'S' && wy == 1 && seg == 2 {
                Some((reseg(wn, "01"@), wx, wy - 1))
            } else if dir == 'N' && wy == 1 && seg == 0 {
                Some((reseg(wn, "01"@), wx, wy - 1))
            } else {
                Some((wn, wx, wy))
            }
        } else if ty == max_y - 1 {
            if dir == 'S' && wy == max_y - 1 && seg == 0 {
                if wy + 1 <= u32::MAX {
                    Some((reseg(wn, "01"@), wx, wy + 1))
                } else {
                    None
                }
            } else if dir == 'N' && wy == max_y - 1 && seg == 2 {
                if wy + 1 <= u32::MAX {
                    Some((reseg(wn, "01"@), wx, wy + 1))
                } else {
                    None
                }
            } else {
                Some((wn, wx, wy))
            }
        } else {
            Some((wn, wx, wy))
        }
    } else if hv_span(wn) == 6 {
        if ty <= 5 {
            if dir == 'N' {
                if seg <= 3 && wy - (3 - seg) >= 0 {
                    Some((reseg(wn, "03"@), wx, wy - (3 - seg)))
                } else {
                    None
                }
            } else {
                if seg >= 3 && wy - (seg - 3) >= 0 {
                    Some((reseg(wn, "03"@), wx, wy - (seg - 3)))
                } else {
                    None
                }
            }
        } else if ty >= max_y - 5 {
            if dir == 'N' {
                if seg >= 3 && wy + (seg - 3) <= u32::MAX {
                    Some((reseg(wn, "03"@), wx, wy + (seg - 3)))
                } else {
                    None
                }
            } else {
                if seg <= 3 && wy + (3 - seg) <= u32::MAX {
                    Some((reseg(wn, "03"@), wx, wy + (3 - seg)))
                } else {
                    None
                }
            }
        } else {
            Some((wn, wx, wy))
        }
    } else {
        None
    }
}

/// Edge normalization of a base wire name observed at position `(wx, wy)`
/// by the tile at `(tx, ty)`. A name that matches neither directional
/// grammar passes through unchanged.
pub open spec fn spec_handle_edge(
    max_x: int,
    max_y: int,
    tx: int,
    ty: int,
    wx: int,
    wy: int,
    wn: Seq<char>,
) -> Option<(Seq<char>, int, int)> {
    if spec_is_hwire(wn) {
        spec_handle_h(max_x, tx, wx, wy, wn)
    } else if spec_is_vwire(wn) {
        spec_handle_v(max_y, ty, wx, wy, wn)
    } else {
        Some((wn, wx, wy))
    }
}

/// Reads the shape of a segmented directional wire: its span length,
/// direction letter and segment index.
fn read_hv_shape(wn: &str, lead: char, da: char, db: char) -> (r: Option<(u32, char, u32)>)
    ensures
        r matches Some(t) ==> spec_hv_shape(wn@, lead, da, db) && t.0 == hv_span(wn@) && t.1
            == wn@[3] && t.2 == hv_seg(wn@),
        r is None ==> !spec_hv_shape(wn@, lead, da, db),
{
    if wn.unicode_len() != 8 {
        return None;
    }
    if wn.get_char(0) != lead {
        return None;
    }
    let d1 = wn.get_char(1);
    let d2 = wn.get_char(2);
    if !(d1 >= '0' && d1 <= '9' && d2 >= '0' && d2 <= '9') {
        return None;
    }
    let dir = wn.get_char(3);
    if !(dir == da || dir == db) {
        return None;
    }
    let m1 = wn.get_char(4);
    let m2 = wn.get_char(5);
    if !(m1 >= '0' && m1 <= '9' && m2 >= '0' && m2 <= '9') {
        return None;
    }
    let s1 = wn.get_char(6);
    let s2 = wn.get_char(7);
    if !(s1 >= '0' && s1 <= '9' && s2 >= '0' && s2 <= '9') {
        return None;
    }
    let span = (d1 as u32 - 48) * 10 + (d2 as u32 - 48);
    let seg = (s1 as u32 - 48) * 10 + (s2 as u32 - 48);
    Some((span, dir, seg))
}

/// The input name with its segment index replaced by `seg2`.
fn rebuild_seg(wn: &str, seg2: &str) -> (r: String)
    requires
        wn@.len() == 8,
    ensures
        r@ == reseg(wn@, seg2@),
{
    let mut r = String::from_str(wn.substring_char(0, 6));
    r.append(seg2);
    r
}

/// A grammar-violation error naming `wn`.
fn grammar_err(wn: &str) -> (r: WireError)
    ensures
        r matches WireError::Grammar { wire } && wire@ == wn@,
{
    WireError::Grammar { wire: String::from_str(wn) }
}

/// Rewrites an irregular boundary-tile encoding of a segmented directional
/// wire to the canonical mid-array encoding and nominal position it
/// represents; other names pass through unchanged. An unrecognized
/// span/direction combination is a fatal grammar violation.
pub fn handle_edge_name(
    max_x: u32,
    max_y: u32,
    tx: u32,
    ty: u32,
    wx: u32,
    wy: u32,
    wn: &str,
) -> (r: Result<(String, u32, u32), WireError>)
    ensures
        match spec_handle_edge(
            max_x as int,
            max_y as int,
            tx as int,
            ty as int,
            wx as int,
            wy as int,
            wn@,
        ) {
            Some(t) => r matches Ok(o) && o.0@ == t.0 && o.1 == t.1 && o.2 == t.2,
            None => r matches Err(e) && e matches WireError::Grammar { wire } && wire@ == wn@,
        },
{
    if let Some((span, dir, seg)) = read_hv_shape(wn, 'H', 'E', 'W') {
        if span == 1 {
            if max_x >= 1 && tx == max_x - 1 {
                if seg == 0 && wx < u32::MAX {
                    return Ok((rebuild_seg(wn, "01"), wx + 1, wy));
                }
                return Err(grammar_err(wn));
            }
            return Ok((String::from_str(wn), wx, wy));
        } else if span == 2 {
            if tx == 1 {
                if dir == 'E' && wx == 1 && seg == 2 {
                    return Ok((rebuild_seg(wn, "01"), wx - 1, wy));
                }
                if dir == 'W' && wx == 1 && seg == 0 {
                    return Ok((rebuild_seg(wn, "01"), wx - 1, wy));
                }
                return Ok((String::from_str(wn), wx, wy));
            }
            if max_x >= 1 && tx == max_x - 1 {
                if dir == 'E' && wx == tx && seg == 0 {
                    if wx < u32::MAX {
                        return Ok((rebuild_seg(wn, "01"), wx + 1, wy));
                    }
                    return Err(grammar_err(wn));
                }
                if dir == 'W' && wx == tx && seg == 2 {
                    if wx < u32::MAX {
                        return Ok((rebuild_seg(wn, "01"), wx + 1, wy));
                    }
                    return Err(grammar_err(wn));
                }
                return Ok((String::from_str(wn), wx, wy));
            }
            return Ok((String::from_str(wn), wx, wy));
        } else if span == 6 {
            if tx <= 5 {
                if dir == 'W' {
                    if seg <= 3 && wx >= 3 - seg {
                        return Ok((rebuild_seg(wn, "03"), wx - (3 - seg), wy));
                    }
                    return Err(grammar_err(wn));
                }
                if seg >= 3 && wx >= seg - 3 {
                    return Ok((rebuild_seg(wn, "03"), wx - (seg - 3), wy));
                }
                return Err(grammar_err(wn));
            }
            if max_x <= 5 || tx >= max_x - 5 {
                if dir == 'W' {
                    if seg >= 3 && wx <= u32::MAX - (seg - 3) {
                        return Ok((rebuild_seg(wn, "03"), wx + (seg - 3), wy));
                    }
                    return Err(grammar_err(wn));
                }
                if seg <= 3 && wx <= u32::MAX - (3 - seg) {
                    return Ok((rebuild_seg(wn, "03"), wx + (3 - seg), wy));
                }
                return Err(grammar_err(wn));
            }
            return Ok((String::from_str(wn), wx, wy));
        } else {
            return Err(grammar_err(wn));
        }
    }
    if let Some((span, dir, seg)) = read_hv_shape(wn, 'V', 'N', 'S') {
        if span == 1 {
            if ty == 1 {
                if wy == 1 && dir == 'N' && seg == 0 {
                    return Ok((rebuild_seg(wn, "01"), wx, wy - 1));
                }
                if wy == 1 && dir == 'S' && seg == 1 {
                    return Ok((rebuild_seg(wn, "01"), wx, wy - 1));
                }
            }
            return Ok((String::from_str(wn), wx, wy));
        } else if span == 2 {
            if ty == 1 {
                if dir == 'S' && wy == 1 && seg == 2 {
                    return Ok((rebuild_seg(wn, "01"), wx, wy - 1));
                }
                if dir == 'N' && wy == 1 && seg == 0 {
                    return Ok((rebuild_seg(wn, "01"), wx, wy - 1));
                }
                return Ok((String::from_str(wn), wx, wy));
            }
            if max_y >= 1 && ty == max_y - 1 {
                if dir == 'S' && wy == ty && seg == 0 {
                    if wy < u32::MAX {
                        return Ok((rebuild_seg(wn, "01"), wx, wy + 1));
                    }
                    return Err(grammar_err(wn));
                }
                if dir == 'N' && wy == ty && seg == 2 {
                    if wy < u32::MAX {
                        return Ok((rebuild_seg(wn, "01"), wx, wy + 1));
                    }
                    return Err(grammar_err(wn));
                }
                return Ok((String::from_str(wn), wx, wy));
            }
            return Ok((String::from_str(wn), wx, wy));
        } else if span == 6 {
            if ty <= 5 {
                if dir == 'N' {
                    if seg <= 3 && wy >= 3 - seg {
                        return Ok((rebuild_seg(wn, "03"), wx, wy - (3 - seg)));
                    }
                    return Err(grammar_err(wn));
                }
                if seg >= 3 && wy >= seg - 3 {
                    return Ok((rebuild_seg(wn, "03"), wx, wy - (seg - 3)));
                }
                return Err(grammar_err(wn));
            }
            if max_y <= 5 || ty >= max_y - 5 {
                if dir == 'N' {
                    if seg >= 3 && wy <= u32::MAX - (seg - 3) {
                        return Ok((rebuild_seg(wn, "03"), wx, wy + (seg - 3)));
                    }
                    return Err(grammar_err(wn));
                }
                if seg <= 3 && wy <= u32::MAX - (3 - seg) {
                    return Ok((rebuild_seg(wn, "03"), wx, wy + (3 - seg)));
                }
                return Err(grammar_err(wn));
            }
            return Ok((String::from_str(wn), wx, wy));
        } else {
            return Err(grammar_err(wn));
        }
    }
    Ok((String::from_str(wn), wx, wy))
}

} // verus!
