//! Wire-name normalization: turns an absolute wire name plus its owning
//! tile into a canonical, relocatable name.
//!
//! All raw net names are absolute, position-encoded names of the form
//! `R<row>C<col>_<base>`; they are no good for building a database shared by
//! all tiles of a type. Canonical names carry instead either a fixed
//! global-class prefix (`G:`, `BRANCH:`, `BRANCH_L:`, `BRANCH_R:`, `SPINE:`,
//! `HROW:`, `DQSG:`), a relative-offset prefix such as `N6:` or `S2E1:`, or
//! no prefix at all for a wire local to its own tile. The `:` separator is
//! reserved; contexts that forbid it substitute `__` downstream, never here.

use vstd::prelude::*;
use crate::WireError;
use crate::digits::{digits_val, render_dec, render_u32};
use crate::edges::{spec_handle_edge, handle_edge_name};
use crate::grammar::{spec_parse_rc, parse_rc, spec_is_hbranch, spec_is_spine, spec_is_hrow,
    spec_is_full_global, spec_is_dqs_group, is_hbranch_wn, is_spine_wn, is_hrow_wn,
    is_full_global_wn, is_dqs_group_wn};
use crate::text::{ends_with, contains_lit, check_ends_with, check_contains};

verus! {

/// The immutable row/column extent of one device.
pub struct DeviceBounds {
    pub max_row: u32,
    pub max_col: u32,
}

/// One cell of the device tile grid: its position, its unique name and its
/// tile type. Owned by the grid; referenced, never mutated, here.
pub struct Tile {
    pub x: u32,
    pub y: u32,
    pub name: String,
    pub tiletype: String,
}

/// What normalization yields for one absolute wire name: a canonical name,
/// or one of the two fatal classification failures.
pub enum NormOutcome {
    Named(Seq<char>),
    BadGrammar,
    Ambiguous,
}

/// The relative-offset prefix for a wire whose nominal position is
/// `(x, y)`, seen from the tile at `(tx, ty)`: vertical component first
/// (`N<d>` above, `S<d>` below), then horizontal (`E<d>` right, `W<d>`
/// left); components at offset zero are absent.
pub open spec fn spec_rel_prefix(tx: int, ty: int, x: int, y: int) -> Seq<char> {
    (if y < ty {
        "N"@ + render_dec((ty - y) as nat)
    } else if y > ty {
        "S"@ + render_dec((y - ty) as nat)
    } else {
        Seq::<char>::empty()
    }) + (if x > tx {
        "E"@ + render_dec((x - tx) as nat)
    } else if x < tx {
        "W"@ + render_dec((tx - x) as nat)
    } else {
        Seq::<char>::empty()
    })
}

/// The power-rail suffixes; every wire carrying one collapses to the single
/// global network `G:VCC`.
pub open spec fn spec_is_vcc(base: Seq<char>) -> bool {
    ends_with(base, "VCCHPRX"@) || ends_with(base, "VCCHPBX"@) || ends_with(base, "VCC"@)
}

/// Canonical name for the absolute `wire` observed by the tile at
/// `(tile_x, tile_y)` named `tile_name`, on a device `max_x` columns by
/// `max_y` rows, in priority order: power rails collapse to `G:VCC`; a
/// horizontal wire in a TAP tile is a left or right branch driver by the
/// side its column lies on; the fixed global-network classes take their
/// class prefix; everything else is edge-normalized and prefixed by its
/// relative offset, or left bare when local to the tile.
pub open spec fn spec_normalize_wire(
    max_x: int,
    max_y: int,
    tile_x: int,
    tile_y: int,
    tile_name: Seq<char>,
    wire: Seq<char>,
) -> NormOutcome {
    match spec_parse_rc(wire) {
        None => NormOutcome::BadGrammar,
        Some(parts) => {
            let wy = digits_val(parts.0);
            let wx = digits_val(parts.1);
            let base = parts.2;
            if wy > u32::MAX || wx > u32::MAX {
                NormOutcome::BadGrammar
            } else if spec_is_vcc(base) {
                NormOutcome::Named("G:VCC"@)
            } else if contains_lit(tile_name, "TAP"@) && base.len() > 0 && base[0] == 'H' {
                if wx < tile_x {
                    NormOutcome::Named("BRANCH_L:"@ + base)
                } else if wx > tile_x {
                    NormOutcome::Named("BRANCH_R:"@ + base)
                } else {
                    NormOutcome::Ambiguous
                }
            } else if spec_is_hbranch(base) {
                NormOutcome::Named("BRANCH:"@ + base)
            } else if spec_is_spine(base) {
                NormOutcome::Named("SPINE:"@ + base)
            } else if spec_is_hrow(base) {
                NormOutcome::Named("HROW:"@ + base)
            } else if spec_is_full_global(base) {
                NormOutcome::Named("G:"@ + base)
            } else if spec_is_dqs_group(base) {
                NormOutcome::Named("DQSG:"@ + base)
            } else {
                match spec_handle_edge(max_x, max_y, tile_x, tile_y, wx, wy, base) {
                    None => NormOutcome::BadGrammar,
                    Some(t) => {
                        if t.1 == tile_x && t.2 == tile_y {
                            NormOutcome::Named(t.0)
                        } else {
                            NormOutcome::Named(
                                spec_rel_prefix(tile_x, tile_y, t.1, t.2) + ":"@ + t.0,
                            )
                        }
                    },
                }
            }
        },
    }
}

/// Builds the relative-offset prefix for nominal position `(x, y)` seen
/// from the tile at `(tx, ty)`.
fn rel_prefix(tx: u32, ty: u32, x: u32, y: u32) -> (r: String)
    ensures
        r@ == spec_rel_prefix(tx as int, ty as int, x as int, y as int),
{
    let mut p = String::new();
    if y < ty {
        p.append("N");
        let d = render_u32(ty - y);
        p.append(d.as_str());
    } else if y > ty {
        p.append("S");
        let d = render_u32(y - ty);
        p.append(d.as_str());
    }
    if x > tx {
        p.append("E");
        let d = render_u32(x - tx);
        p.append(d.as_str());
    } else if x < tx {
        p.append("W");
        let d = render_u32(tx - x);
        p.append(d.as_str());
    }
    proof {
        assert(p@ =~= spec_rel_prefix(tx as int, ty as int, x as int, y as int));
    }
    p
}

/// A fixed class prefix followed by the base name.
fn prefixed(prefix: &str, base: &str) -> (r: String)
    ensures
        r@ == prefix@ + base@,
{
    let mut p = String::from_str(prefix);
    p.append(base);
    p
}

/// Normalizes one absolute wire name against its owning tile: the verified
/// core of canonical naming. Returns the canonical name, or the fatal
/// classification failure that `wire` provokes, exactly as
/// [`spec_normalize_wire`] lays down.
pub fn normalize_wire(bounds: &DeviceBounds, tile: &Tile, wire: &str) -> (r: Result<
    String,
    WireError,
>)
    ensures
        match spec_normalize_wire(
            bounds.max_col as int,
            bounds.max_row as int,
            tile.x as int,
            tile.y as int,
            tile.name@,
            wire@,
        ) {
            NormOutcome::Named(n) => r matches Ok(s) && s@ == n,
            NormOutcome::BadGrammar => r matches Err(e) && e matches WireError::Grammar {
                wire: w,
            } && w@ == wire@,
            NormOutcome::Ambiguous => r matches Err(e) && e matches WireError::AmbiguousSide {
                wire: w,
                tile: t,
            } && w@ == wire@ && t@ == tile.name@,
        },
{
    let addr = match parse_rc(wire) {
        Some(a) => a,
        None => {
            return Err(WireError::Grammar { wire: String::from_str(wire) });
        },
    };
    let wy = addr.row;
    let wx = addr.col;
    let base = addr.base.as_str();
    if check_ends_with(base, "VCCHPRX") || check_ends_with(base, "VCCHPBX") || check_ends_with(
        base,
        "VCC",
    ) {
        return Ok(String::from_str("G:VCC"));
    }
    if check_contains(tile.name.as_str(), "TAP") && base.unicode_len() > 0 && base.get_char(0)
        == 'H' {
        if wx < tile.x {
            return Ok(prefixed("BRANCH_L:", base));
        } else if wx > tile.x {
            return Ok(prefixed("BRANCH_R:", base));
        } else {
            return Err(
                WireError::AmbiguousSide {
                    wire: String::from_str(wire),
                    tile: tile.name.clone(),
                },
            );
        }
    }
    if is_hbranch_wn(base) {
        return Ok(prefixed("BRANCH:", base));
    }
    if is_spine_wn(base) {
        return Ok(prefixed("SPINE:", base));
    }
    if is_hrow_wn(base) {
        return Ok(prefixed("HROW:", base));
    }
    if is_full_global_wn(base) {
        return Ok(prefixed("G:", base));
    }
    if is_dqs_group_wn(base) {
        return Ok(prefixed("DQSG:", base));
    }
    let (en, ex, ey) = match handle_edge_name(
        bounds.max_col,
        bounds.max_row,
        tile.x,
        tile.y,
        wx,
        wy,
        base,
    ) {
        Ok(t) => t,
        Err(_) => {
            return Err(WireError::Grammar { wire: String::from_str(wire) });
        },
    };
    if ex == tile.x && ey == tile.y {
        return Ok(en);
    }
    let mut p = rel_prefix(tile.x, tile.y, ex, ey);
    p.append(":");
    p.append(en.as_str());
    proof {
        assert(p@ =~= spec_rel_prefix(tile.x as int, tile.y as int, ex as int, ey as int) + ":"@
            + en@);
    }
    Ok(p)
}

} // verus!
