//! The cross-cutting guarantees of the naming scheme, stated and proved
//! once over the specification functions that the executable contracts are
//! phrased in.

use vstd::prelude::*;
use crate::digits::{digits_val, render_dec, lemma_render_dec, is_digit};
use crate::edges::spec_handle_edge;
use crate::grammar::spec_parse_rc;
use crate::neighbour::{Neighbour, spec_parse_wire, spec_classify_prefix,
    spec_parse_rel, spec_parse_rel_from, is_nesw, nesw_end, lemma_nesw_end};
use crate::normalize::{spec_normalize_wire, spec_rel_prefix, spec_is_vcc, NormOutcome};
use crate::text::{find_char, lemma_find_char, contains_lit};

verus! {

/// A canonical name without a `:` separator classifies to no neighbour and
/// passes through unchanged.
pub proof fn lemma_no_prefix_idempotent(s: Seq<char>)
    requires
        forall|i: int| 0 <= i < s.len() ==> s[i] != ':',
    ensures
        spec_parse_wire(s) == Some((None::<Neighbour>, s)),
{
    lemma_find_char(s, ':', 0);
}

/// Every wire whose base name carries a power-rail suffix normalizes to the
/// single global name `G:VCC`, whatever its position and owning tile.
pub proof fn lemma_vcc_collapse(
    max_x: int,
    max_y: int,
    tile_x: int,
    tile_y: int,
    tile_name: Seq<char>,
    wire: Seq<char>,
)
    requires
        spec_parse_rc(wire) matches Some(parts) && digits_val(parts.0) <= u32::MAX && digits_val(
            parts.1,
        ) <= u32::MAX && spec_is_vcc(parts.2),
    ensures
        spec_normalize_wire(max_x, max_y, tile_x, tile_y, tile_name, wire)
            == NormOutcome::Named("G:VCC"@),
{
}


/// A decimal digit is neither an offset letter nor the `:` separator.
proof fn lemma_digit_plain(c: char)
    requires
        is_digit(c),
    ensures
        !is_nesw(c),
        c != ':',
{
}

/// Parsing one offset token `letter + digits` at index `i` of `p` steps to
/// the index past its digits.
proof fn lemma_token_shape(p: Seq<char>, i: int, m: nat)
    requires
        0 <= i < p.len(),
        is_nesw(p[i]),
        i + 1 + render_dec(m).len() <= p.len(),
        p.subrange(i + 1, i + 1 + render_dec(m).len() as int) == render_dec(m),
        i + 1 + render_dec(m).len() < p.len() ==> is_nesw(p[i + 1 + render_dec(m).len()]),
        forall|k: int|
            i + 1 <= k < i + 1 + render_dec(m).len() ==> is_digit(#[trigger] p[k]),
    ensures
        nesw_end(p, i + 1) == i + 1 + render_dec(m).len(),
    decreases p.len(),
{
    lemma_render_dec(m);
    let e = i + 1 + render_dec(m).len() as int;
    if e < p.len() {
        crate::neighbour::lemma_nesw_stops(p, i + 1, e);
    } else {
        lemma_nesw_end(p, i + 1);
        if nesw_end(p, i + 1) < e {
            assert(is_nesw(p[nesw_end(p, i + 1)]));
            assert(is_digit(p[nesw_end(p, i + 1)]));
        }
    }
}

/// Appending an offset token to a relative prefix produced by step 7 of
/// normalization parses back to the offset it rendered: the exact inverse
/// of the relative-offset case.
pub proof fn lemma_offset_prefix_inverse(tx: int, ty: int, x: int, y: int, base: Seq<char>)
    requires
        x != tx || y != ty,
        y < ty ==> ty - y <= i32::MAX,
        y > ty ==> y - ty <= i32::MAX,
        x < tx ==> tx - x <= i32::MAX,
        x > tx ==> x - tx <= i32::MAX,
    ensures
        spec_parse_wire(spec_rel_prefix(tx, ty, x, y) + seq![':'] + base) == Some(
            (
                Some(Neighbour::RelXY { rel_x: (x - tx) as i32, rel_y: (y - ty) as i32 }),
                base,
            ),
        ),
{
    let p = spec_rel_prefix(tx, ty, x, y);
    let s = p + seq![':'] + base;
    let vlen: int = if y != ty {
        1 + render_dec((if y < ty { ty - y } else { y - ty }) as nat).len() as int
    } else {
        0
    };
    let hlen: int = if x != tx {
        1 + render_dec((if x < tx { tx - x } else { x - tx }) as nat).len() as int
    } else {
        0
    };
    let vm = (if y < ty { ty - y } else { y - ty }) as nat;
    let hm = (if x < tx { tx - x } else { x - tx }) as nat;
    reveal_strlit("N");
    reveal_strlit("S");
    reveal_strlit("E");
    reveal_strlit("W");
    lemma_render_dec(vm);
    lemma_render_dec(hm);
    assert(p.len() == vlen + hlen);
    // classify every character of the prefix
    assert forall|i: int| 0 <= i < p.len() implies p[i] != ':' by {
        if y != ty {
            if i == 0 {
            } else if i < vlen {
                assert(p[i] == render_dec(vm)[i - 1]);
                lemma_digit_plain(p[i]);
            } else if i == vlen {
            } else {
                assert(p[i] == render_dec(hm)[i - vlen - 1]);
                lemma_digit_plain(p[i]);
            }
        } else {
            if i == 0 {
            } else {
                assert(p[i] == render_dec(hm)[i - 1]);
                lemma_digit_plain(p[i]);
            }
        }
    }
    // the first separator sits right after the prefix
    assert(s[p.len() as int] == ':');
    lemma_find_char(s, ':', 0);
    let f = find_char(s, ':', 0);
    assert(f == p.len()) by {
        if f < p.len() {
            assert(s[f] == ':');
            assert(s[f] == p[f]);
        }
        if f > p.len() {
            assert(s[p.len() as int] != ':');
        }
    }
    assert(s.subrange(0, p.len() as int) =~= p);
    assert(s.subrange(p.len() as int + 1, s.len() as int) =~= base);
    // the prefix is none of the fixed class tokens
    assert(p.len() >= 2);
    assert(is_nesw(p[0]));
    reveal_strlit("BRANCH");
    reveal_strlit("BRANCH_L");
    reveal_strlit("BRANCH_R");
    reveal_strlit("SPINE");
    reveal_strlit("HROW");
    reveal_strlit("G");
    reveal_strlit("DQSG");
    assert(p != "BRANCH"@ && p != "BRANCH_L"@ && p != "BRANCH_R"@ && p != "HROW"@ && p != "G"@
        && p != "DQSG"@) by {
        assert(p[0] == 'N' || p[0] == 'E' || p[0] == 'S' || p[0] == 'W');
    }
    assert(p != "SPINE"@) by {
        if p == "SPINE"@ {
            assert(p[1] == 'P');
            if y != ty {
                assert(p[1] == render_dec(vm)[0]);
            } else {
                assert(p[1] == render_dec(hm)[0]);
            }
        }
    }
    // parse the one or two offset tokens
    if y != ty && x != tx {
        let c1 = if y < ty { 'N' } else { 'S' };
        let c2 = if x > tx { 'E' } else { 'W' };
        assert(p[0] == c1);
        assert(p[vlen] == c2);
        assert forall|k: int| 1 <= k < vlen implies is_digit(#[trigger] p[k]) by {
            assert(p[k] == render_dec(vm)[k - 1]);
        }
        assert forall|k: int| vlen + 1 <= k < p.len() implies is_digit(#[trigger] p[k]) by {
            assert(p[k] == render_dec(hm)[k - vlen - 1]);
        }
        assert(p.subrange(1, vlen) =~= render_dec(vm));
        assert(p.subrange(vlen + 1, p.len() as int) =~= render_dec(hm));
        lemma_token_shape(p, 0, vm);
        lemma_token_shape(p, vlen, hm);
        assert(nesw_end(p, 1) == vlen);
        assert(nesw_end(p, vlen + 1) == p.len());
        let ry: int = if y < ty { -(vm as int) } else { vm as int };
        let rx: int = if x > tx { hm as int } else { -(hm as int) };
        assert(spec_parse_rel_from(p, p.len() as int, rx, ry) == Some((rx, ry)));
        assert(spec_parse_rel_from(p, vlen, 0, ry) == Some((rx, ry)));
        assert(spec_parse_rel(p) == Some((rx, ry)));
        assert(rx == x - tx && ry == y - ty);
    } else if y != ty {
        let c1 = if y < ty { 'N' } else { 'S' };
        assert(p[0] == c1);
        assert forall|k: int| 1 <= k < p.len() implies is_digit(#[trigger] p[k]) by {
            assert(p[k] == render_dec(vm)[k - 1]);
        }
        assert(p.subrange(1, p.len() as int) =~= render_dec(vm));
        lemma_token_shape(p, 0, vm);
        assert(nesw_end(p, 1) == p.len());
        let ry: int = if y < ty { -(vm as int) } else { vm as int };
        assert(spec_parse_rel_from(p, p.len() as int, 0int, ry) == Some((0int, ry)));
        assert(spec_parse_rel(p) == Some((0int, ry)));
        assert(ry == y - ty && 0 == x - tx);
    } else {
        let c2 = if x > tx { 'E' } else { 'W' };
        assert(p[0] == c2);
        assert forall|k: int| 1 <= k < p.len() implies is_digit(#[trigger] p[k]) by {
            assert(p[k] == render_dec(hm)[k - 1]);
        }
        assert(p.subrange(1, p.len() as int) =~= render_dec(hm));
        lemma_token_shape(p, 0, hm);
        assert(nesw_end(p, 1) == p.len());
        let rx: int = if x > tx { hm as int } else { -(hm as int) };
        assert(spec_parse_rel_from(p, p.len() as int, rx, 0int) == Some((rx, 0int)));
        assert(spec_parse_rel(p) == Some((rx, 0int)));
        assert(rx == x - tx && 0 == y - ty);
    }
    assert(spec_classify_prefix(p) == Some(
        Neighbour::RelXY { rel_x: (x - tx) as i32, rel_y: (y - ty) as i32 },
    ));
}


/// Two tiles observing the same base wire name at the same relative
/// displacement produce identical canonical names, whatever their absolute
/// positions — provided both observe the regular mid-array encoding (the
/// edge normalizer passes the name through for both) and agree on being TAP
/// tiles. Wires near a device edge carry irregular encodings instead, which
/// the edge normalizer first rewrites; for them the two raw names differ.
pub proof fn lemma_position_independence(
    max_x: int,
    max_y: int,
    t1x: int,
    t1y: int,
    name1: Seq<char>,
    w1: Seq<char>,
    t2x: int,
    t2y: int,
    name2: Seq<char>,
    w2: Seq<char>,
)
    requires
        spec_parse_rc(w1) matches Some(p1) && spec_parse_rc(w2) matches Some(p2) && {
            &&& digits_val(p1.0) <= u32::MAX
            &&& digits_val(p1.1) <= u32::MAX
            &&& digits_val(p2.0) <= u32::MAX
            &&& digits_val(p2.1) <= u32::MAX
            &&& p1.2 == p2.2
            &&& digits_val(p1.1) - t1x == digits_val(p2.1) - t2x
            &&& digits_val(p1.0) - t1y == digits_val(p2.0) - t2y
            &&& spec_handle_edge(max_x, max_y, t1x, t1y, digits_val(p1.1), digits_val(p1.0), p1.2)
                == Some((p1.2, digits_val(p1.1), digits_val(p1.0)))
            &&& spec_handle_edge(max_x, max_y, t2x, t2y, digits_val(p2.1), digits_val(p2.0), p2.2)
                == Some((p2.2, digits_val(p2.1), digits_val(p2.0)))
        },
        contains_lit(name1, "TAP"@) == contains_lit(name2, "TAP"@),
    ensures
        spec_normalize_wire(max_x, max_y, t1x, t1y, name1, w1) == spec_normalize_wire(
            max_x,
            max_y,
            t2x,
            t2y,
            name2,
            w2,
        ),
{
    let p1 = spec_parse_rc(w1).unwrap();
    let p2 = spec_parse_rc(w2).unwrap();
    let wy1 = digits_val(p1.0);
    let wx1 = digits_val(p1.1);
    let wy2 = digits_val(p2.0);
    let wx2 = digits_val(p2.1);
    assert(spec_rel_prefix(t1x, t1y, wx1, wy1) == spec_rel_prefix(t2x, t2y, wx2, wy2)) by {
        assert(t1y - wy1 == t2y - wy2);
        assert(t1x - wx1 == t2x - wx2);
    }
}

} // verus!
