//! Per-tile-type routing graph: wires, driven wires, bel pins, and
//! neighbour-classified wire groups.
//!
//! A tile type's raw bit database lists programmable interconnect points
//! (pips) and fixed connections, each a destination wire with its source
//! wires; its bel catalog lists logic primitives with pins tied to
//! tile-relative wire names. All wire names here are canonical names. The
//! builder collects every name, interns it, marks the driven (sink) wires,
//! and groups neighbour-classified wires by their relationship.

use vstd::prelude::*;
use crate::WireError;
use crate::intern::{IdStringDb, idx_of, lemma_idx_of_prefix};
use crate::neighbour::{Neighbour, spec_parse_wire};
use crate::normalize::Tile;
use crate::text::str_eq;

verus! {

/// One destination wire with the source wires that can drive it.
pub struct WireConns {
    pub to_wire: String,
    pub from_wires: Vec<String>,
}

/// The raw per-type bit database slice this core reads: pips and fixed
/// connections, keyed by destination wire.
pub struct TileBitsDatabase {
    pub pips: Vec<WireConns>,
    pub conns: Vec<WireConns>,
}

/// Direction of a bel pin.
#[derive(PartialEq, Eq, Structural, Clone, Copy, Debug)]
pub enum PinDir {
    Input,
    Output,
    InOut,
}

/// A bel pin: its tile-relative wire and its direction.
pub struct Pin {
    pub wire: String,
    pub dir: PinDir,
}

/// A basic element (logic primitive) within a tile.
pub struct Bel {
    pub name: String,
    pub pins: Vec<Pin>,
}

/// Names contributed by one destination group: the destination first, then
/// its sources in order.
pub open spec fn group_names(g: WireConns) -> Seq<Seq<char>> {
    seq![g.to_wire@] + g.from_wires.deep_view()
}

/// Names contributed by a list of destination groups, in order.
pub open spec fn groups_names(gs: Seq<WireConns>) -> Seq<Seq<char>>
    decreases gs.len(),
{
    if gs.len() == 0 {
        Seq::empty()
    } else {
        groups_names(gs.drop_last()) + group_names(gs.last())
    }
}

/// The destination wires of a list of groups, in order.
pub open spec fn groups_firsts(gs: Seq<WireConns>) -> Seq<Seq<char>> {
    gs.map_values(|g: WireConns| g.to_wire@)
}

/// The pin wires of one bel, in order.
pub open spec fn bel_pin_names(b: Bel) -> Seq<Seq<char>> {
    b.pins@.map_values(|p: Pin| p.wire@)
}

/// The pin wires of a list of bels, in order.
pub open spec fn bels_names(bs: Seq<Bel>) -> Seq<Seq<char>>
    decreases bs.len(),
{
    if bs.len() == 0 {
        Seq::empty()
    } else {
        bels_names(bs.drop_last()) + bel_pin_names(bs.last())
    }
}

/// The wires of the output pins among `ps`, in order.
pub open spec fn pins_out(ps: Seq<Pin>) -> Seq<Seq<char>>
    decreases ps.len(),
{
    if ps.len() == 0 {
        Seq::empty()
    } else {
        let pre = pins_out(ps.drop_last());
        if ps.last().dir == PinDir::Output {
            pre.push(ps.last().wire@)
        } else {
            pre
        }
    }
}

/// The output pin wires of one bel, in order.
pub open spec fn bel_out_names(b: Bel) -> Seq<Seq<char>> {
    pins_out(b.pins@)
}

/// The output pin wires of a list of bels, in order.
pub open spec fn bels_out_names(bs: Seq<Bel>) -> Seq<Seq<char>>
    decreases bs.len(),
{
    if bs.len() == 0 {
        Seq::empty()
    } else {
        bels_out_names(bs.drop_last()) + bel_out_names(bs.last())
    }
}

/// Every wire name one tile type mentions, in encounter order: pip
/// destinations and sources, then fixed-connection destinations and
/// sources, then bel pin wires.
pub open spec fn spec_all_names(pips: Seq<WireConns>, conns: Seq<WireConns>, bels: Seq<Bel>) -> Seq<
    Seq<char>,
> {
    groups_names(pips) + groups_names(conns) + bels_names(bels)
}

/// Every driven (sink) wire name, in encounter order: pip and
/// fixed-connection destinations, then bel output pins.
pub open spec fn spec_driven_names(
    pips: Seq<WireConns>,
    conns: Seq<WireConns>,
    bels: Seq<Bel>,
) -> Seq<Seq<char>> {
    groups_firsts(pips) + groups_firsts(conns) + bels_out_names(bels)
}

/// `s` with every repeated element removed, keeping first occurrences in
/// order.
pub open spec fn dedup_first<A>(s: Seq<A>) -> Seq<A>
    decreases s.len(),
{
    if s.len() == 0 {
        Seq::empty()
    } else {
        let d = dedup_first(s.drop_last());
        if d.contains(s.last()) {
            d
        } else {
            d.push(s.last())
        }
    }
}

/// Deduplication keeps exactly the elements of `s`, without repeats.
pub proof fn lemma_dedup_first<A>(s: Seq<A>)
    ensures
        forall|x: A| dedup_first(s).contains(x) <==> s.contains(x),
        forall|i: int, j: int|
            0 <= i < j < dedup_first(s).len() ==> dedup_first(s)[i] != dedup_first(s)[j],
    decreases s.len(),
{
    if s.len() > 0 {
        lemma_dedup_first(s.drop_last());
        let d = dedup_first(s.drop_last());
        assert forall|x: A| dedup_first(s).contains(x) implies s.contains(x) by {
            if d.contains(x) {
                assert(s.drop_last().contains(x));
                let w = choose|w: int| 0 <= w < s.drop_last().len() && s.drop_last()[w] == x;
                assert(s[w] == x);
            } else {
                assert(s[s.len() - 1] == x);
            }
        }
        assert forall|x: A| s.contains(x) implies dedup_first(s).contains(x) by {
            let w = choose|w: int| 0 <= w < s.len() && s[w] == x;
            if w < s.len() - 1 {
                assert(s.drop_last()[w] == x);
                assert(s.drop_last().contains(x));
                assert(d.contains(x));
                if !d.contains(s.last()) {
                    let v = choose|v: int| 0 <= v < d.len() && d[v] == x;
                    assert(dedup_first(s)[v] == x);
                }
            } else {
                assert(x == s.last());
                if d.contains(s.last()) {
                    assert(d.contains(x));
                } else {
                    assert(dedup_first(s)[d.len() as int] == x);
                }
            }
        }
        if !d.contains(s.last()) {
            assert forall|i: int, j: int|
                0 <= i < j < dedup_first(s).len() implies dedup_first(s)[i] != dedup_first(
                s,
            )[j] by {
                if j < d.len() {
                } else {
                    assert(dedup_first(s)[j] == s.last());
                    assert(d.contains(d[i]));
                }
            }
        }
    }
}

/// Tests whether `v` holds a string equal to `s`.
fn vec_contains_str(v: &Vec<String>, s: &str) -> (r: bool)
    ensures
        r == v.deep_view().contains(s@),
{
    let n = v.len();
    let mut i: usize = 0;
    while i < n
        invariant
            0 <= i <= n,
            n == v.len(),
            v.deep_view().len() == v.len(),
            forall|k: int| 0 <= k < i ==> v.deep_view()[k] != s@,
        decreases n - i,
    {
        if str_eq(v[i].as_str(), s) {
            proof {
                assert(v.deep_view()[i as int] == s@);
            }
            return true;
        }
        i = i + 1;
    }
    false
}

/// Collects every wire name of one tile type, with repeats, in encounter
/// order.
fn collect_names(data: &TileBitsDatabase, bels: &Vec<Bel>) -> (r: Vec<String>)
    ensures
        r.deep_view() == spec_all_names(data.pips@, data.conns@, bels@),
{
    let mut r: Vec<String> = Vec::new();
    proof {
        assert(r.deep_view() =~= Seq::<Seq<char>>::empty());
    }
    collect_group_names(&data.pips, &mut r);
    collect_group_names(&data.conns, &mut r);
    let nb = bels.len();
    let mut b: usize = 0;
    while b < nb
        invariant
            0 <= b <= nb,
            nb == bels.len(),
            r.deep_view() =~= groups_names(data.pips@) + groups_names(data.conns@) + bels_names(
                bels@.take(b as int),
            ),
        decreases nb - b,
    {
        let pins = &bels[b].pins;
        let np = pins.len();
        let mut p: usize = 0;
        while p < np
            invariant
                0 <= p <= np,
                np == pins.len(),
                0 <= b < nb,
                nb == bels.len(),
                pins == &bels[b as int].pins,
                r.deep_view() =~= groups_names(data.pips@) + groups_names(data.conns@)
                    + bels_names(bels@.take(b as int)) + bel_pin_names(bels@[b as int]).take(
                    p as int,
                ),
            decreases np - p,
        {
            let ghost pre = r.deep_view();
            r.push(pins[p].wire.clone());
            proof {
                assert(r.deep_view() =~= pre.push(pins@[p as int].wire@));
                assert(bel_pin_names(bels@[b as int]).take(p + 1 as int) =~= bel_pin_names(
                    bels@[b as int],
                ).take(p as int).push(pins@[p as int].wire@));
                assert(r.deep_view() =~= groups_names(data.pips@) + groups_names(data.conns@)
                    + bels_names(bels@.take(b as int)) + bel_pin_names(bels@[b as int]).take(
                    p + 1 as int,
                ));
            }
            p = p + 1;
        }
        proof {
            assert(bels@.take(b + 1 as int).drop_last() =~= bels@.take(b as int));
            assert(bel_pin_names(bels@[b as int]).take(np as int) =~= bel_pin_names(
                bels@[b as int],
            ));
            assert(bels_names(bels@.take(b + 1 as int)) =~= bels_names(bels@.take(b as int))
                + bel_pin_names(bels@[b as int]));
        }
        b = b + 1;
    }
    proof {
        assert(bels@.take(nb as int) =~= bels@);
        assert(r.deep_view() =~= spec_all_names(data.pips@, data.conns@, bels@));
    }
    r
}

/// Appends the names of every group of `gs` to `out`: each destination,
/// then its sources.
fn collect_group_names(gs: &Vec<WireConns>, out: &mut Vec<String>)
    ensures
        final(out).deep_view() == old(out).deep_view() + groups_names(gs@),
{
    let n = gs.len();
    let mut i: usize = 0;
    while i < n
        invariant
            0 <= i <= n,
            n == gs.len(),
            out.deep_view() =~= old(out).deep_view() + groups_names(gs@.take(i as int)),
        decreases n - i,
    {
        let g = &gs[i];
        let ghost pre0 = out.deep_view();
        out.push(g.to_wire.clone());
        proof {
            assert(out.deep_view() =~= pre0.push(gs@[i as int].to_wire@));
            assert(gs@[i as int].from_wires.deep_view().take(0) =~= Seq::<Seq<char>>::empty());
            assert(out.deep_view() =~= old(out).deep_view() + groups_names(gs@.take(i as int))
                + seq![gs@[i as int].to_wire@]
                + gs@[i as int].from_wires.deep_view().take(0));
        }
        let nf = g.from_wires.len();
        let mut f: usize = 0;
        while f < nf
            invariant
                0 <= f <= nf,
                0 <= i < n,
                n == gs.len(),
                g == &gs[i as int],
                nf == g.from_wires.len(),
                out.deep_view() =~= old(out).deep_view() + groups_names(gs@.take(i as int)) + seq![
                    gs@[i as int].to_wire@,
                ] + gs@[i as int].from_wires.deep_view().take(f as int),
            decreases nf - f,
        {
            let ghost pre = out.deep_view();
            out.push(g.from_wires[f].clone());
            proof {
                assert(out.deep_view() =~= pre.push(g.from_wires@[f as int]@));
                assert(gs@[i as int].from_wires.deep_view().take(f + 1 as int)
                    =~= gs@[i as int].from_wires.deep_view().take(f as int).push(
                    g.from_wires@[f as int]@,
                ));
                assert(out.deep_view() =~= old(out).deep_view() + groups_names(gs@.take(i as int))
                    + seq![gs@[i as int].to_wire@]
                    + gs@[i as int].from_wires.deep_view().take(f + 1 as int));
            }
            f = f + 1;
        }
        proof {
            assert(gs@.take(i + 1 as int).drop_last() =~= gs@.take(i as int));
            assert(gs@[i as int].from_wires.deep_view().take(nf as int)
                =~= gs@[i as int].from_wires.deep_view());
            assert(groups_names(gs@.take(i + 1 as int)) =~= groups_names(gs@.take(i as int))
                + group_names(gs@[i as int]));
        }
        i = i + 1;
    }
    proof {
        assert(gs@.take(n as int) =~= gs@);
    }
}


/// Collects every driven wire name of one tile type, with repeats, in
/// encounter order.
fn collect_driven(data: &TileBitsDatabase, bels: &Vec<Bel>) -> (r: Vec<String>)
    ensures
        r.deep_view() == spec_driven_names(data.pips@, data.conns@, bels@),
{
    let mut r: Vec<String> = Vec::new();
    proof {
        assert(r.deep_view() =~= Seq::<Seq<char>>::empty());
    }
    collect_firsts(&data.pips, &mut r);
    collect_firsts(&data.conns, &mut r);
    let nb = bels.len();
    let mut b: usize = 0;
    while b < nb
        invariant
            0 <= b <= nb,
            nb == bels.len(),
            r.deep_view() =~= groups_firsts(data.pips@) + groups_firsts(data.conns@)
                + bels_out_names(bels@.take(b as int)),
        decreases nb - b,
    {
        let pins = &bels[b].pins;
        let np = pins.len();
        let mut p: usize = 0;
        while p < np
            invariant
                0 <= p <= np,
                np == pins.len(),
                0 <= b < nb,
                nb == bels.len(),
                pins == &bels[b as int].pins,
                r.deep_view() =~= groups_firsts(data.pips@) + groups_firsts(data.conns@)
                    + bels_out_names(bels@.take(b as int)) + pins_out(pins@.take(p as int)),
            decreases np - p,
        {
            let ghost pre = r.deep_view();
            if matches!(pins[p].dir, PinDir::Output) {
                r.push(pins[p].wire.clone());
            }
            proof {
                assert(pins@.take(p + 1 as int).drop_last() =~= pins@.take(p as int));
                if pins@[p as int].dir == PinDir::Output {
                    assert(r.deep_view() =~= pre.push(pins@[p as int].wire@));
                }
                assert(r.deep_view() =~= groups_firsts(data.pips@) + groups_firsts(data.conns@)
                    + bels_out_names(bels@.take(b as int)) + pins_out(pins@.take(p + 1 as int)));
            }
            p = p + 1;
        }
        proof {
            assert(bels@.take(b + 1 as int).drop_last() =~= bels@.take(b as int));
            assert(pins@.take(np as int) =~= pins@);
            assert(bels_out_names(bels@.take(b + 1 as int)) =~= bels_out_names(bels@.take(
                b as int,
            )) + pins_out(pins@));
        }
        b = b + 1;
    }
    proof {
        assert(bels@.take(nb as int) =~= bels@);
        assert(r.deep_view() =~= spec_driven_names(data.pips@, data.conns@, bels@));
    }
    r
}

/// Appends the destination wire of every group of `gs` to `out`.
fn collect_firsts(gs: &Vec<WireConns>, out: &mut Vec<String>)
    ensures
        final(out).deep_view() == old(out).deep_view() + groups_firsts(gs@),
{
    let n = gs.len();
    let mut i: usize = 0;
    while i < n
        invariant
            0 <= i <= n,
            n == gs.len(),
            out.deep_view() =~= old(out).deep_view() + groups_firsts(gs@.take(i as int)),
        decreases n - i,
    {
        let ghost pre = out.deep_view();
        out.push(gs[i].to_wire.clone());
        proof {
            assert(out.deep_view() =~= pre.push(gs@[i as int].to_wire@));
            assert(groups_firsts(gs@.take(i + 1 as int)) =~= groups_firsts(gs@.take(i as int)).push(
                gs@[i as int].to_wire@,
            ));
        }
        i = i + 1;
    }
    proof {
        assert(gs@.take(n as int) =~= gs@);
    }
}

/// Removes repeated names, keeping first occurrences in order.
fn dedup_strs(names: &Vec<String>) -> (r: Vec<String>)
    ensures
        r.deep_view() == dedup_first(names.deep_view()),
{
    let mut r: Vec<String> = Vec::new();
    let n = names.len();
    let mut i: usize = 0;
    proof {
        assert(names.deep_view().take(0) =~= Seq::<Seq<char>>::empty());
        assert(r.deep_view() =~= Seq::<Seq<char>>::empty());
    }
    while i < n
        invariant
            0 <= i <= n,
            n == names.len(),
            r.deep_view() =~= dedup_first(names.deep_view().take(i as int)),
        decreases n - i,
    {
        let ghost pre = r.deep_view();
        let present = vec_contains_str(&r, names[i].as_str());
        if !present {
            r.push(names[i].clone());
        }
        proof {
            assert(names.deep_view().take(i + 1 as int).drop_last() =~= names.deep_view().take(
                i as int,
            ));
            assert(names.deep_view().take(i + 1 as int).last() == names.deep_view()[i as int]);
            if !present {
                assert(r.deep_view() =~= pre.push(names.deep_view()[i as int]));
            }
            assert(r.deep_view() =~= dedup_first(names.deep_view().take(i + 1 as int)));
        }
        i = i + 1;
    }
    proof {
        assert(names.deep_view().take(n as int) =~= names.deep_view());
    }
    r
}

/// Interns every name of `names` in order, returning their identifiers.
fn intern_all(ids: &mut IdStringDb, names: &Vec<String>) -> (r: Vec<usize>)
    requires
        old(ids).inv(),
    ensures
        final(ids).inv(),
        old(ids)@.is_prefix_of(final(ids)@),
        r@.len() == names@.len(),
        forall|k: int|
            0 <= k < names@.len() ==> final(ids)@.contains(#[trigger] names.deep_view()[k]),
        forall|k: int|
            0 <= k < names@.len() ==> #[trigger] r@[k] == idx_of(
                final(ids)@,
                names.deep_view()[k],
            ),
{
    let mut r: Vec<usize> = Vec::new();
    let n = names.len();
    let mut i: usize = 0;
    while i < n
        invariant
            0 <= i <= n,
            n == names.len(),
            ids.inv(),
            old(ids)@.is_prefix_of(ids@),
            r@.len() == i,
            forall|k: int| 0 <= k < i ==> ids@.contains(#[trigger] names.deep_view()[k]),
            forall|k: int|
                0 <= k < i ==> #[trigger] r@[k] == idx_of(ids@, names.deep_view()[k]),
        decreases n - i,
    {
        let ghost pre_tbl = ids@;
        let id = ids.id(names[i].as_str());
        proof {
            assert forall|k: int|
                0 <= k < i implies ids@.contains(#[trigger] names.deep_view()[k]) && r@[k]
                == idx_of(ids@, names.deep_view()[k]) by {
                assert(r@[k] == idx_of(pre_tbl, names.deep_view()[k]));
                assert(pre_tbl.contains(names.deep_view()[k]));
                lemma_idx_of_prefix(pre_tbl, ids@, names.deep_view()[k]);
                let w = choose|w: int|
                    0 <= w < pre_tbl.len() && pre_tbl[w] == names.deep_view()[k];
                assert(ids@.subrange(0, pre_tbl.len() as int)[w] == names.deep_view()[k]);
                assert(ids@[w] == names.deep_view()[k]);
            }
            crate::intern::lemma_prefix_transitive(old(ids)@, pre_tbl, ids@);
            assert(names.deep_view()[i as int] == names@[i as int]@);
        }
        let ghost r_pre = r@;
        r.push(id);
        proof {
            assert forall|k: int|
                0 <= k < i + 1 implies ids@.contains(#[trigger] names.deep_view()[k]) && r@[k]
                == idx_of(ids@, names.deep_view()[k]) by {
                if k < i {
                    assert(r@[k] == r_pre[k]);
                    assert(r_pre[k] == idx_of(ids@, names.deep_view()[k]));
                    assert(ids@.contains(names.deep_view()[k]));
                } else {
                    assert(r@[k] == id);
                    assert(ids@.contains(names@[i as int]@));
                    assert(ids@.contains(names.deep_view()[k]));
                }
            }
        }
        i = i + 1;
    }
    r
}

/// The neighbour class of a canonical wire name: its parsed prefix, or
/// nothing for a local wire or an unparseable name.
pub open spec fn class_of(w: Seq<char>) -> Option<Neighbour> {
    match spec_parse_wire(w) {
        Some(t) => t.0,
        None => None,
    }
}

/// The name parses as a canonical wire name.
pub open spec fn classifiable(w: Seq<char>) -> bool {
    spec_parse_wire(w) is Some
}

/// The distinct neighbour classes among `ws`, in first-encounter order.
pub open spec fn spec_keys(ws: Seq<Seq<char>>) -> Seq<Neighbour>
    decreases ws.len(),
{
    if ws.len() == 0 {
        Seq::empty()
    } else {
        let pre = spec_keys(ws.drop_last());
        match class_of(ws.last()) {
            Some(k) => if pre.contains(k) {
                pre
            } else {
                pre.push(k)
            },
            None => pre,
        }
    }
}

/// The wires of `ws` classified to `k`, in order.
pub open spec fn spec_bucket(ws: Seq<Seq<char>>, k: Neighbour) -> Seq<Seq<char>>
    decreases ws.len(),
{
    if ws.len() == 0 {
        Seq::empty()
    } else {
        let pre = spec_bucket(ws.drop_last(), k);
        if class_of(ws.last()) == Some(k) {
            pre.push(ws.last())
        } else {
            pre
        }
    }
}

/// A class absent from the key list has an empty bucket.
proof fn lemma_bucket_empty(ws: Seq<Seq<char>>, k: Neighbour)
    requires
        !spec_keys(ws).contains(k),
    ensures
        spec_bucket(ws, k) =~= Seq::<Seq<char>>::empty(),
    decreases ws.len(),
{
    if ws.len() > 0 {
        let pre = spec_keys(ws.drop_last());
        assert forall|x: Neighbour| pre.contains(x) implies spec_keys(ws).contains(x) by {
            let v = choose|v: int| 0 <= v < pre.len() && pre[v] == x;
            assert(spec_keys(ws)[v] == x);
        }
        lemma_bucket_empty(ws.drop_last(), k);
        if class_of(ws.last()) == Some(k) {
            if pre.contains(k) {
            } else {
                assert(spec_keys(ws)[pre.len() as int] == k);
            }
        }
    }
}

/// Every bucket element is one of the wires.
proof fn lemma_bucket_sub(ws: Seq<Seq<char>>, k: Neighbour)
    ensures
        forall|i: int|
            0 <= i < spec_bucket(ws, k).len() ==> ws.contains(#[trigger] spec_bucket(ws, k)[i]),
    decreases ws.len(),
{
    if ws.len() > 0 {
        lemma_bucket_sub(ws.drop_last(), k);
        let pre = spec_bucket(ws.drop_last(), k);
        assert forall|i: int|
            0 <= i < spec_bucket(ws, k).len() implies ws.contains(
            #[trigger] spec_bucket(ws, k)[i],
        ) by {
            if i < pre.len() {
                assert(ws.drop_last().contains(pre[i]));
                let v = choose|v: int|
                    0 <= v < ws.drop_last().len() && ws.drop_last()[v] == pre[i];
                assert(ws[v] == pre[i]);
            } else {
                assert(spec_bucket(ws, k)[i] == ws.last());
            }
        }
    }
}

/// The identifiers of a bucket's wires under the intern table `tbl`.
pub open spec fn id_map(tbl: Seq<Seq<char>>, bkt: Seq<Seq<char>>) -> Seq<usize> {
    bkt.map_values(|x: Seq<char>| idx_of(tbl, x) as usize)
}

/// Every destination wire occurs among the group names.
proof fn lemma_firsts_sub(gs: Seq<WireConns>)
    ensures
        forall|x: Seq<char>|
            groups_firsts(gs).contains(x) ==> groups_names(gs).contains(x),
    decreases gs.len(),
{
    if gs.len() > 0 {
        lemma_firsts_sub(gs.drop_last());
        assert forall|x: Seq<char>|
            groups_firsts(gs).contains(x) implies groups_names(gs).contains(x) by {
            let w = choose|w: int| 0 <= w < gs.len() && groups_firsts(gs)[w] == x;
            if w < gs.len() - 1 {
                assert(groups_firsts(gs.drop_last())[w] == x);
                assert(groups_firsts(gs.drop_last()).contains(x));
                assert(groups_names(gs.drop_last()).contains(x));
                let v = choose|v: int|
                    0 <= v < groups_names(gs.drop_last()).len() && groups_names(
                        gs.drop_last(),
                    )[v] == x;
                assert(groups_names(gs)[v] == x);
            } else {
                assert(x == gs.last().to_wire@);
                assert(groups_names(gs)[groups_names(gs.drop_last()).len() as int] == x);
            }
        }
    }
}

/// Every output pin wire occurs among the pin wires.
proof fn lemma_pins_out_sub(ps: Seq<Pin>)
    ensures
        forall|x: Seq<char>|
            pins_out(ps).contains(x) ==> ps.map_values(|p: Pin| p.wire@).contains(x),
    decreases ps.len(),
{
    if ps.len() > 0 {
        lemma_pins_out_sub(ps.drop_last());
        let pre = pins_out(ps.drop_last());
        assert forall|x: Seq<char>|
            pins_out(ps).contains(x) implies ps.map_values(|p: Pin| p.wire@).contains(x) by {
            let m = ps.map_values(|p: Pin| p.wire@);
            let w = choose|w: int| 0 <= w < pins_out(ps).len() && pins_out(ps)[w] == x;
            if w < pre.len() {
                assert(pre.contains(x));
                assert(ps.drop_last().map_values(|p: Pin| p.wire@).contains(x));
                let m0 = ps.drop_last().map_values(|p: Pin| p.wire@);
                let v = choose|v: int| 0 <= v < m0.len() && #[trigger] m0[v] == x;
                assert(m[v] == x);
            } else {
                assert(x == ps.last().wire@);
                assert(m[ps.len() - 1] == x);
            }
        }
    }
}

/// Every driven wire name occurs among all wire names.
proof fn lemma_driven_sub_all(pips: Seq<WireConns>, conns: Seq<WireConns>, bels: Seq<Bel>)
    ensures
        forall|x: Seq<char>|
            spec_driven_names(pips, conns, bels).contains(x) ==> spec_all_names(
                pips,
                conns,
                bels,
            ).contains(x),
    decreases bels.len(),
{
    lemma_firsts_sub(pips);
    lemma_firsts_sub(conns);
    lemma_bels_out_sub(bels);
    assert forall|x: Seq<char>|
        spec_driven_names(pips, conns, bels).contains(x) implies spec_all_names(
        pips,
        conns,
        bels,
    ).contains(x) by {
        let d = spec_driven_names(pips, conns, bels);
        let w = choose|w: int| 0 <= w < d.len() && d[w] == x;
        let a = groups_firsts(pips).len() as int;
        let b = groups_firsts(conns).len() as int;
        if w < a {
            assert(groups_firsts(pips)[w] == x);
            assert(groups_firsts(pips).contains(x));
            assert(groups_names(pips).contains(x));
            let v = choose|v: int|
                0 <= v < groups_names(pips).len() && groups_names(pips)[v] == x;
            assert(spec_all_names(pips, conns, bels)[v] == x);
        } else if w < a + b {
            assert(groups_firsts(conns)[w - a] == x);
            assert(groups_firsts(conns).contains(x));
            assert(groups_names(conns).contains(x));
            let v = choose|v: int|
                0 <= v < groups_names(conns).len() && groups_names(conns)[v] == x;
            assert(spec_all_names(pips, conns, bels)[groups_names(pips).len() + v] == x);
        } else {
            assert(bels_out_names(bels)[w - a - b] == x);
            assert(bels_out_names(bels).contains(x));
            assert(bels_names(bels).contains(x));
            let v = choose|v: int| 0 <= v < bels_names(bels).len() && bels_names(bels)[v] == x;
            assert(spec_all_names(pips, conns, bels)[groups_names(pips).len() + groups_names(
                conns,
            ).len() + v] == x);
        }
    }
}

/// Every bel output wire occurs among the bel pin wires.
proof fn lemma_bels_out_sub(bels: Seq<Bel>)
    ensures
        forall|x: Seq<char>| bels_out_names(bels).contains(x) ==> bels_names(bels).contains(x),
    decreases bels.len(),
{
    if bels.len() > 0 {
        lemma_bels_out_sub(bels.drop_last());
        lemma_pins_out_sub(bels.last().pins@);
        assert forall|x: Seq<char>|
            bels_out_names(bels).contains(x) implies bels_names(bels).contains(x) by {
            let w = choose|w: int|
                0 <= w < bels_out_names(bels).len() && bels_out_names(bels)[w] == x;
            let pre = bels_out_names(bels.drop_last());
            if w < pre.len() {
                assert(pre.contains(x));
                assert(bels_names(bels.drop_last()).contains(x));
                let v = choose|v: int|
                    0 <= v < bels_names(bels.drop_last()).len() && bels_names(
                        bels.drop_last(),
                    )[v] == x;
                assert(bels_names(bels)[v] == x);
            } else {
                assert(pins_out(bels.last().pins@)[w - pre.len()] == x);
                assert(pins_out(bels.last().pins@).contains(x));
                assert(bel_pin_names(bels.last()).contains(x));
                let v = choose|v: int|
                    0 <= v < bel_pin_names(bels.last()).len() && bel_pin_names(bels.last())[v]
                        == x;
                assert(bels_names(bels)[bels_names(bels.drop_last()).len() + v] == x);
            }
        }
    }
}

/// The per-tile-type routing graph: every wire name seen, its interned
/// identifier, the driven (sink) wires, and the wires grouped by neighbour
/// relationship, together with the raw data and bel catalog they came from.
pub struct TileType {
    pub data: TileBitsDatabase,
    pub wires: Vec<String>,
    pub wire_ids: Vec<usize>,
    pub driven_wire_ids: Vec<usize>,
    pub neighbour_wire_ids: Vec<(Neighbour, Vec<usize>)>,
    pub neighbours: Vec<Neighbour>,
    pub bels: Vec<Bel>,
}

impl TileType {
    /// The structural invariants of a built graph: driven wires and every
    /// neighbour-bucket entry are among the known wire identifiers, the
    /// neighbour set is exactly the bucket keys, and no key repeats.
    pub open spec fn wf(&self) -> bool {
        &&& forall|i: int|
            0 <= i < self.driven_wire_ids@.len() ==> self.wire_ids@.contains(
                #[trigger] self.driven_wire_ids@[i],
            )
        &&& forall|j: int, i: int|
            0 <= j < self.neighbour_wire_ids@.len() && 0 <= i
                < (#[trigger] self.neighbour_wire_ids@[j]).1@.len() ==> self.wire_ids@.contains(
                #[trigger] self.neighbour_wire_ids@[j].1@[i],
            )
        &&& self.neighbours@ == self.neighbour_wire_ids@.map_values(
            |e: (Neighbour, Vec<usize>)| e.0,
        )
        &&& forall|j1: int, j2: int|
            0 <= j1 < j2 < self.neighbour_wire_ids@.len()
                ==> (#[trigger] self.neighbour_wire_ids@[j1]).0
                != (#[trigger] self.neighbour_wire_ids@[j2]).0
    }

    /// Whether this tile type has any pip or fixed connection: routing tile
    /// types have, purely-logic ones have not.
    pub fn has_routing(&self) -> (r: bool)
        ensures
            r == (self.data.pips@.len() > 0 || self.data.conns@.len() > 0),
    {
        self.data.pips.len() > 0 || self.data.conns.len() > 0
    }
}

impl TileType {
    /// Builds the graph of one tile type from its raw bit database and bel
    /// catalog, interning every wire name through `ids`: every name of
    /// `data` and of the bel pins is collected in encounter order and
    /// deduplicated; the destinations and output pins become the driven
    /// set; each wire is classified and appended to its neighbour bucket.
    /// Fails, with the offending name, exactly when some collected wire
    /// name cannot be classified.
    pub fn new(data: TileBitsDatabase, bels: Vec<Bel>, ids: &mut IdStringDb) -> (r: Result<
        TileType,
        WireError,
    >)
        requires
            old(ids).inv(),
        ensures
            final(ids).inv(),
            old(ids)@.is_prefix_of(final(ids)@),
            ({
                let ws = dedup_first(spec_all_names(data.pips@, data.conns@, bels@));
                let ds = dedup_first(spec_driven_names(data.pips@, data.conns@, bels@));
                let tbl = final(ids)@;
                match r {
                    Ok(tt) => {
                        &&& forall|i: int| 0 <= i < ws.len() ==> classifiable(#[trigger] ws[i])
                        &&& tt.data == data
                        &&& tt.bels == bels
                        &&& tt.wires.deep_view() == ws
                        &&& tt.wire_ids@.len() == ws.len()
                        &&& forall|i: int| 0 <= i < ws.len() ==> tbl.contains(#[trigger] ws[i])
                        &&& forall|i: int|
                            0 <= i < ws.len() ==> #[trigger] tt.wire_ids@[i] == idx_of(tbl, ws[i])
                        &&& tt.driven_wire_ids@.len() == ds.len()
                        &&& forall|i: int|
                            0 <= i < ds.len() ==> #[trigger] tt.driven_wire_ids@[i] == idx_of(
                                tbl,
                                ds[i],
                            )
                        &&& tt.neighbours@ == spec_keys(ws)
                        &&& tt.neighbour_wire_ids@.len() == spec_keys(ws).len()
                        &&& forall|j: int|
                            0 <= j < spec_keys(ws).len()
                                ==> (#[trigger] tt.neighbour_wire_ids@[j]).0 == spec_keys(ws)[j]
                        &&& forall|j: int|
                            0 <= j < spec_keys(ws).len()
                                ==> (#[trigger] tt.neighbour_wire_ids@[j]).1@ == id_map(
                                tbl,
                                spec_bucket(ws, spec_keys(ws)[j]),
                            )
                        &&& tt.wf()
                    },
                    Err(e) => {
                        &&& e matches WireError::Grammar { wire } && ws.contains(wire@)
                            && !classifiable(wire@)
                    },
                }
            }),
    {
        let names = collect_names(&data, &bels);
        let wires = dedup_strs(&names);
        let dnames = collect_driven(&data, &bels);
        let driven = dedup_strs(&dnames);
        let ghost ws = dedup_first(spec_all_names(data.pips@, data.conns@, bels@));
        let ghost ds = dedup_first(spec_driven_names(data.pips@, data.conns@, bels@));
        let wire_ids = intern_all(ids, &wires);
        let ghost t1 = ids@;
        let driven_wire_ids = intern_all(ids, &driven);
        let ghost tbl = ids@;
        proof {
            crate::intern::lemma_prefix_transitive(old(ids)@, t1, tbl);
            assert forall|k: int| 0 <= k < ws.len() implies tbl.contains(#[trigger] ws[k])
                && wire_ids@[k] == idx_of(tbl, ws[k]) by {
                assert(t1.contains(ws[k]));
                assert(wire_ids@[k] == idx_of(t1, ws[k]));
                lemma_idx_of_prefix(t1, tbl, ws[k]);
                let w = choose|w: int| 0 <= w < t1.len() && t1[w] == ws[k];
                assert(tbl.subrange(0, t1.len() as int)[w] == ws[k]);
                assert(tbl[w] == ws[k]);
            }
        }
        let nw = wires.len();
        let mut nbw: Vec<(Neighbour, Vec<usize>)> = Vec::new();
        let mut w: usize = 0;
        proof {
            assert(ws.take(0) =~= Seq::<Seq<char>>::empty());
        }
        while w < nw
            invariant
                0 <= w <= nw,
                nw == wires@.len(),
                ws == wires.deep_view(),
                ws == dedup_first(spec_all_names(data.pips@, data.conns@, bels@)),
                ws.len() == nw,
                ids.inv(),
                ids@ == tbl,
                old(ids)@.is_prefix_of(tbl),
                wire_ids@.len() == nw,
                forall|k: int| 0 <= k < nw ==> tbl.contains(#[trigger] ws[k]),
                forall|k: int| 0 <= k < nw ==> #[trigger] wire_ids@[k] == idx_of(tbl, ws[k]),
                forall|k: int| 0 <= k < w ==> classifiable(#[trigger] ws[k]),
                nbw@.len() == spec_keys(ws.take(w as int)).len(),
                forall|j: int|
                    0 <= j < nbw@.len() ==> (#[trigger] nbw@[j]).0 == spec_keys(
                        ws.take(w as int),
                    )[j],
                forall|j1: int, j2: int|
                    0 <= j1 < j2 < nbw@.len() ==> (#[trigger] nbw@[j1]).0 != (
                    #[trigger] nbw@[j2]).0,
                forall|j: int|
                    0 <= j < nbw@.len() ==> (#[trigger] nbw@[j]).1@ == id_map(
                        tbl,
                        spec_bucket(ws.take(w as int), spec_keys(ws.take(w as int))[j]),
                    ),
            decreases nw - w,
        {
            let ghost tws = ws.take(w as int);
            let ghost tws1 = ws.take(w + 1 as int);
            proof {
                assert(tws1.drop_last() =~= tws);
                assert(tws1.last() == ws[w as int]);
                assert(wires.deep_view()[w as int] == wires@[w as int]@);
            }
            match Neighbour::parse_wire(wires[w].as_str()) {
                Err(_) => {
                    proof {
                        assert(!classifiable(ws[w as int]));
                        assert(ws.contains(ws[w as int]));
                    }
                    return Err(WireError::Grammar { wire: wires[w].clone() });
                },
                Ok((maybe_nb, _base)) => {
                    if let Some(nb) = maybe_nb {
                        proof {
                            assert(class_of(ws[w as int]) == Some(nb));
                        }
                        match find_key(&nbw, nb) {
                            Some(j) => {
                                let ghost nbw_pre = nbw@;
                                let mut tmp: (Neighbour, Vec<usize>) = (nb, Vec::new());
                                nbw.set_and_swap(j, &mut tmp);
                                let ghost entry = tmp;
                                tmp.1.push(wire_ids[w]);
                                let ghost pushed = tmp;
                                nbw.set_and_swap(j, &mut tmp);
                                proof {
                                    assert(entry == nbw_pre[j as int]);
                                    assert(pushed.0 == nb);
                                    assert(pushed.1@ =~= entry.1@.push(wire_ids@[w as int]));
                                    assert(nbw@ =~= nbw_pre.update(j as int, pushed));
                                    assert(spec_keys(tws).contains(nb)) by {
                                        assert(spec_keys(tws)[j as int] == nb);
                                    }
                                    assert(spec_keys(tws1) =~= spec_keys(tws));
                                    assert forall|jj: int|
                                        0 <= jj < nbw@.len() implies (#[trigger] nbw@[jj]).1@
                                        == id_map(tbl, spec_bucket(tws1, spec_keys(tws1)[jj]))
                                        by {
                                        let kj = spec_keys(tws1)[jj];
                                        if jj == j {
                                            assert(kj == nb);
                                            assert(spec_bucket(tws1, nb) =~= spec_bucket(
                                                tws,
                                                nb,
                                            ).push(ws[w as int]));
                                            assert(id_map(tbl, spec_bucket(tws1, nb)) =~= id_map(
                                                tbl,
                                                spec_bucket(tws, nb),
                                            ).push((idx_of(tbl, ws[w as int]) as usize)));
                                        } else {
                                            assert(nbw@[jj] == nbw_pre[jj]);
                                            assert(kj != nb);
                                            assert(spec_bucket(tws1, kj) =~= spec_bucket(
                                                tws,
                                                kj,
                                            ));
                                        }
                                    }
                                }
                            },
                            None => {
                                let ghost nbw_pre = nbw@;
                                let mut bucket: Vec<usize> = Vec::new();
                                bucket.push(wire_ids[w]);
                                nbw.push((nb, bucket));
                                proof {
                                    assert(!spec_keys(tws).contains(nb)) by {
                                        if spec_keys(tws).contains(nb) {
                                            let v = choose|v: int|
                                                0 <= v < spec_keys(tws).len() && spec_keys(
                                                    tws,
                                                )[v] == nb;
                                            assert(nbw_pre[v].0 == nb);
                                        }
                                    }
                                    assert(spec_keys(tws1) =~= spec_keys(tws).push(nb));
                                    lemma_bucket_empty(tws, nb);
                                    assert forall|jj: int|
                                        0 <= jj < nbw@.len() implies (#[trigger] nbw@[jj]).1@
                                        == id_map(tbl, spec_bucket(tws1, spec_keys(tws1)[jj]))
                                        by {
                                        let kj = spec_keys(tws1)[jj];
                                        if jj < nbw_pre.len() {
                                            assert(nbw@[jj] == nbw_pre[jj]);
                                            assert(kj == spec_keys(tws)[jj]);
                                            assert(kj != nb);
                                            assert(spec_bucket(tws1, kj) =~= spec_bucket(
                                                tws,
                                                kj,
                                            ));
                                        } else {
                                            assert(kj == nb);
                                            assert(nbw@[jj].1@ =~= Seq::<usize>::empty().push(
                                                wire_ids@[w as int],
                                            ));
                                            assert(spec_bucket(tws1, nb) =~= spec_bucket(
                                                tws,
                                                nb,
                                            ).push(ws[w as int]));
                                            assert(id_map(tbl, spec_bucket(tws1, nb))
                                                =~= Seq::<usize>::empty().push(
                                                (idx_of(tbl, ws[w as int]) as usize),
                                            ));
                                        }
                                    }
                                    assert forall|j1: int, j2: int|
                                        0 <= j1 < j2 < nbw@.len() implies (
                                    #[trigger] nbw@[j1]).0 != (#[trigger] nbw@[j2]).0 by {
                                        if j2 == nbw@.len() - 1 {
                                            assert(nbw@[j1].0 == nbw_pre[j1].0);
                                        }
                                    }
                                }
                            },
                        }
                    } else {
                        proof {
                            assert(class_of(ws[w as int]) is None);
                            assert(spec_keys(tws1) =~= spec_keys(tws));
                            assert forall|jj: int|
                                0 <= jj < nbw@.len() implies (#[trigger] nbw@[jj]).1@
                                == id_map(tbl, spec_bucket(tws1, spec_keys(tws1)[jj])) by {
                                let kj = spec_keys(tws1)[jj];
                                assert(spec_bucket(tws1, kj) =~= spec_bucket(tws, kj));
                            }
                        }
                    }
                },
            }
            w = w + 1;
        }
        proof {
            assert(ws.take(nw as int) =~= ws);
        }
        let nk = nbw.len();
        let mut neighbours: Vec<Neighbour> = Vec::new();
        let mut j: usize = 0;
        while j < nk
            invariant
                0 <= j <= nk,
                nk == nbw@.len(),
                neighbours@.len() == j,
                forall|k: int| 0 <= k < j ==> #[trigger] neighbours@[k] == nbw@[k].0,
            decreases nk - j,
        {
            let nb = nbw[j].0;
            neighbours.push(nb);
            j = j + 1;
        }
        let tt = TileType {
            data,
            wires,
            wire_ids,
            driven_wire_ids,
            neighbour_wire_ids: nbw,
            neighbours,
            bels,
        };
        proof {
            assert(tt.neighbours@ =~= tt.neighbour_wire_ids@.map_values(
                |e: (Neighbour, Vec<usize>)| e.0,
            ));
            lemma_dedup_first(spec_all_names(tt.data.pips@, tt.data.conns@, tt.bels@));
            lemma_dedup_first(spec_driven_names(tt.data.pips@, tt.data.conns@, tt.bels@));
            lemma_driven_sub_all(tt.data.pips@, tt.data.conns@, tt.bels@);
            assert forall|i: int|
                0 <= i < tt.driven_wire_ids@.len() implies tt.wire_ids@.contains(
                #[trigger] tt.driven_wire_ids@[i],
            ) by {
                assert(tt.driven_wire_ids@[i] == idx_of(tbl, ds[i]));
                assert(ds.contains(ds[i]));
                assert(spec_driven_names(tt.data.pips@, tt.data.conns@, tt.bels@).contains(
                    ds[i],
                ));
                assert(spec_all_names(tt.data.pips@, tt.data.conns@, tt.bels@).contains(ds[i]));
                assert(ws.contains(ds[i]));
                let v = choose|v: int| 0 <= v < ws.len() && ws[v] == ds[i];
                assert(tt.wire_ids@[v] == idx_of(tbl, ds[i]));
            }
            assert forall|j2: int, i: int|
                0 <= j2 < tt.neighbour_wire_ids@.len() && 0 <= i
                    < (#[trigger] tt.neighbour_wire_ids@[j2]).1@.len()
                implies tt.wire_ids@.contains(#[trigger] tt.neighbour_wire_ids@[j2].1@[i]) by {
                let kj = spec_keys(ws)[j2];
                lemma_bucket_sub(ws, kj);
                let bkt = spec_bucket(ws, kj);
                assert(tt.neighbour_wire_ids@[j2].1@[i] == idx_of(tbl, bkt[i]));
                assert(ws.contains(bkt[i]));
                let v = choose|v: int| 0 <= v < ws.len() && ws[v] == bkt[i];
                assert(tt.wire_ids@[v] == idx_of(tbl, bkt[i]));
            }
        }
        Ok(tt)
    }
}

/// First entry of `nbw` keyed by `nb`.
fn find_key(nbw: &Vec<(Neighbour, Vec<usize>)>, nb: Neighbour) -> (r: Option<usize>)
    ensures
        match r {
            Some(j) => j < nbw@.len() && nbw@[j as int].0 == nb,
            None => forall|jj: int| 0 <= jj < nbw@.len() ==> (#[trigger] nbw@[jj]).0 != nb,
        },
{
    let n = nbw.len();
    let mut j: usize = 0;
    while j < n
        invariant
            0 <= j <= n,
            n == nbw@.len(),
            forall|jj: int| 0 <= jj < j ==> (#[trigger] nbw@[jj]).0 != nb,
        decreases n - j,
    {
        if nbw[j].0 == nb {
            return Some(j);
        }
        j = j + 1;
    }
    None
}

/// The text content of a pin list: each wire with its direction.
pub open spec fn pins_view(ps: Seq<Pin>) -> Seq<(Seq<char>, PinDir)> {
    ps.map_values(|p: Pin| (p.wire@, p.dir))
}

/// The text content of a bel list.
pub open spec fn bels_view(bs: Seq<Bel>) -> Seq<(Seq<char>, Seq<(Seq<char>, PinDir)>)> {
    bs.map_values(|b: Bel| (b.name@, pins_view(b.pins@)))
}

/// The text content of a group list: each destination with its sources.
pub open spec fn groups_view(gs: Seq<WireConns>) -> Seq<(Seq<char>, Seq<Seq<char>>)> {
    gs.map_values(|g: WireConns| (g.to_wire@, g.from_wires.deep_view()))
}

/// Group lists with the same text content contribute the same names.
proof fn lemma_groups_names_view(a: Seq<WireConns>, b: Seq<WireConns>)
    requires
        groups_view(a) == groups_view(b),
    ensures
        groups_names(a) == groups_names(b),
        groups_firsts(a) == groups_firsts(b),
    decreases a.len(),
{
    assert(groups_view(a).len() == a.len());
    assert(groups_view(b).len() == b.len());
    if a.len() > 0 {
        assert(groups_view(a).len() == a.len());
        assert(groups_view(b).len() == b.len());
        assert(a.len() == b.len());
        assert(groups_view(a.drop_last()) =~= groups_view(b.drop_last())) by {
            assert forall|k: int|
                0 <= k < a.len() - 1 implies groups_view(a.drop_last())[k] == groups_view(
                b.drop_last(),
            )[k] by {
                assert(groups_view(a.drop_last())[k] == groups_view(a)[k]);
                assert(groups_view(b.drop_last())[k] == groups_view(b)[k]);
                assert(groups_view(a)[k] == groups_view(b)[k]);
            }
        }
        lemma_groups_names_view(a.drop_last(), b.drop_last());
        assert(groups_view(a)[a.len() - 1] == groups_view(b)[b.len() - 1]);
        assert(group_names(a.last()) =~= group_names(b.last()));
        assert(groups_names(a) =~= groups_names(b));
        assert forall|k: int|
            0 <= k < a.len() implies groups_firsts(a)[k] == groups_firsts(b)[k] by {
            assert(groups_view(a)[k] == groups_view(b)[k]);
        }
        assert(groups_firsts(a) =~= groups_firsts(b));
    } else {
        assert(groups_names(a) =~= groups_names(b));
        assert(groups_firsts(a) =~= groups_firsts(b));
    }
}

/// Pin lists with the same text content have the same wires and outputs.
proof fn lemma_pins_view(a: Seq<Pin>, b: Seq<Pin>)
    requires
        pins_view(a) == pins_view(b),
    ensures
        a.map_values(|p: Pin| p.wire@) == b.map_values(|p: Pin| p.wire@),
        pins_out(a) == pins_out(b),
    decreases a.len(),
{
    assert(pins_view(a).len() == a.len());
    assert(pins_view(b).len() == b.len());
    if a.len() > 0 {
        assert(pins_view(a).len() == a.len());
        assert(pins_view(b).len() == b.len());
        assert(a.len() == b.len());
        assert(pins_view(a.drop_last()) =~= pins_view(b.drop_last())) by {
            assert forall|k: int|
                0 <= k < a.len() - 1 implies pins_view(a.drop_last())[k] == pins_view(
                b.drop_last(),
            )[k] by {
                assert(pins_view(a.drop_last())[k] == pins_view(a)[k]);
                assert(pins_view(b.drop_last())[k] == pins_view(b)[k]);
                assert(pins_view(a)[k] == pins_view(b)[k]);
            }
        }
        lemma_pins_view(a.drop_last(), b.drop_last());
        assert(pins_view(a)[a.len() - 1] == pins_view(b)[b.len() - 1]);
        assert(a.last().wire@ == b.last().wire@ && a.last().dir == b.last().dir);
        let ma = a.map_values(|p: Pin| p.wire@);
        let mb = b.map_values(|p: Pin| p.wire@);
        assert forall|k: int| 0 <= k < a.len() implies #[trigger] ma[k] == mb[k] by {
            assert(pins_view(a)[k] == pins_view(b)[k]);
        }
        assert(ma =~= mb);
        assert(pins_out(a) =~= pins_out(b));
    } else {
        assert(a.map_values(|p: Pin| p.wire@) =~= b.map_values(|p: Pin| p.wire@));
        assert(pins_out(a) =~= pins_out(b));
    }
}

/// Bel lists with the same text content contribute the same names.
proof fn lemma_bels_view(a: Seq<Bel>, b: Seq<Bel>)
    requires
        bels_view(a) == bels_view(b),
    ensures
        bels_names(a) == bels_names(b),
        bels_out_names(a) == bels_out_names(b),
    decreases a.len(),
{
    assert(bels_view(a).len() == a.len());
    assert(bels_view(b).len() == b.len());
    if a.len() > 0 {
        assert(bels_view(a).len() == a.len());
        assert(bels_view(b).len() == b.len());
        assert(a.len() == b.len());
        assert(bels_view(a.drop_last()) =~= bels_view(b.drop_last())) by {
            assert forall|k: int|
                0 <= k < a.len() - 1 implies bels_view(a.drop_last())[k] == bels_view(
                b.drop_last(),
            )[k] by {
                assert(bels_view(a.drop_last())[k] == bels_view(a)[k]);
                assert(bels_view(b.drop_last())[k] == bels_view(b)[k]);
                assert(bels_view(a)[k] == bels_view(b)[k]);
            }
        }
        lemma_bels_view(a.drop_last(), b.drop_last());
        assert(bels_view(a)[a.len() - 1] == bels_view(b)[b.len() - 1]);
        assert(pins_view(a.last().pins@) == pins_view(b.last().pins@));
        lemma_pins_view(a.last().pins@, b.last().pins@);
        assert(bel_pin_names(a.last()) == bel_pin_names(b.last()));
        assert(bel_out_names(a.last()) == bel_out_names(b.last()));
        assert(bels_names(a) =~= bels_names(b));
        assert(bels_out_names(a) =~= bels_out_names(b));
    } else {
        assert(bels_names(a) =~= bels_names(b));
        assert(bels_out_names(a) =~= bels_out_names(b));
    }
}

/// Copies a string list.
fn clone_string_vec(v: &Vec<String>) -> (r: Vec<String>)
    ensures
        r@ == v@,
{
    let n = v.len();
    let mut r: Vec<String> = Vec::new();
    let mut i: usize = 0;
    while i < n
        invariant
            0 <= i <= n,
            n == v@.len(),
            r@ =~= v@.take(i as int),
        decreases n - i,
    {
        r.push(v[i].clone());
        proof {
            assert(v@.take(i + 1 as int) =~= v@.take(i as int).push(v@[i as int]));
        }
        i = i + 1;
    }
    proof {
        assert(v@.take(n as int) =~= v@);
    }
    r
}

/// Copies a group list, keeping its text content.
fn clone_groups(gs: &Vec<WireConns>) -> (r: Vec<WireConns>)
    ensures
        groups_view(r@) == groups_view(gs@),
{
    let n = gs.len();
    let mut r: Vec<WireConns> = Vec::new();
    proof {
        assert(groups_view(r@) =~= groups_view(gs@.take(0)));
    }
    let mut i: usize = 0;
    while i < n
        invariant
            0 <= i <= n,
            n == gs@.len(),
            groups_view(r@) =~= groups_view(gs@.take(i as int)),
        decreases n - i,
    {
        let ghost pre = r@;
        let g = WireConns {
            to_wire: gs[i].to_wire.clone(),
            from_wires: clone_string_vec(&gs[i].from_wires),
        };
        proof {
            assert(g.from_wires.deep_view() =~= gs@[i as int].from_wires.deep_view());
        }
        r.push(g);
        proof {
            assert(groups_view(r@) =~= groups_view(pre).push(
                (gs@[i as int].to_wire@, gs@[i as int].from_wires.deep_view()),
            ));
            assert(groups_view(gs@.take(i + 1 as int)) =~= groups_view(gs@.take(i as int)).push(
                (gs@[i as int].to_wire@, gs@[i as int].from_wires.deep_view()),
            ));
        }
        i = i + 1;
    }
    proof {
        assert(gs@.take(n as int) =~= gs@);
    }
    r
}

/// Copies a raw bit database, keeping its text content.
fn clone_bits(d: &TileBitsDatabase) -> (r: TileBitsDatabase)
    ensures
        groups_view(r.pips@) == groups_view(d.pips@),
        groups_view(r.conns@) == groups_view(d.conns@),
{
    TileBitsDatabase { pips: clone_groups(&d.pips), conns: clone_groups(&d.conns) }
}

/// Copies a bel list, keeping its text content.
fn clone_bels(bs: &Vec<Bel>) -> (r: Vec<Bel>)
    ensures
        bels_view(r@) == bels_view(bs@),
{
    let n = bs.len();
    let mut r: Vec<Bel> = Vec::new();
    proof {
        assert(bels_view(r@) =~= bels_view(bs@.take(0)));
    }
    let mut i: usize = 0;
    while i < n
        invariant
            0 <= i <= n,
            n == bs@.len(),
            bels_view(r@) =~= bels_view(bs@.take(i as int)),
        decreases n - i,
    {
        let ghost pre = r@;
        let pins = &bs[i].pins;
        let np = pins.len();
        let mut cp: Vec<Pin> = Vec::new();
        proof {
            assert(pins_view(cp@) =~= pins_view(pins@.take(0)));
        }
        let mut k: usize = 0;
        while k < np
            invariant
                0 <= k <= np,
                np == pins@.len(),
                0 <= i < n,
                n == bs@.len(),
                pins == &bs[i as int].pins,
                pins_view(cp@) =~= pins_view(pins@.take(k as int)),
            decreases np - k,
        {
            let ghost cpre = cp@;
            cp.push(Pin { wire: pins[k].wire.clone(), dir: pins[k].dir });
            proof {
                assert(pins_view(cp@) =~= pins_view(cpre).push(
                    (pins@[k as int].wire@, pins@[k as int].dir),
                ));
                assert(pins_view(pins@.take(k + 1 as int)) =~= pins_view(pins@.take(
                    k as int,
                )).push((pins@[k as int].wire@, pins@[k as int].dir)));
            }
            k = k + 1;
        }
        proof {
            assert(pins@.take(np as int) =~= pins@);
        }
        r.push(Bel { name: bs[i].name.clone(), pins: cp });
        proof {
            assert(bels_view(r@) =~= bels_view(pre).push(
                (bs@[i as int].name@, pins_view(bs@[i as int].pins@)),
            ));
            assert(bels_view(bs@.take(i + 1 as int)) =~= bels_view(bs@.take(i as int)).push(
                (bs@[i as int].name@, pins_view(bs@[i as int].pins@)),
            ));
        }
        i = i + 1;
    }
    proof {
        assert(bs@.take(n as int) =~= bs@);
    }
    r
}

/// One tile type's raw material: its bit database slice and bel catalog.
pub struct TileDbEntry {
    pub tiletype: String,
    pub data: TileBitsDatabase,
    pub bels: Vec<Bel>,
}

/// The per-family raw database: one entry per tile type it knows.
pub struct TileDb {
    pub entries: Vec<TileDbEntry>,
}

/// First entry named `name`, if any.
pub open spec fn spec_db_find(es: Seq<TileDbEntry>, name: Seq<char>) -> Option<TileDbEntry>
    decreases es.len(),
{
    if es.len() == 0 {
        None
    } else if es[0].tiletype@ == name {
        Some(es[0])
    } else {
        spec_db_find(es.drop_first(), name)
    }
}

proof fn lemma_db_find_at(es: Seq<TileDbEntry>, name: Seq<char>, i: int)
    requires
        0 <= i < es.len(),
        es[i].tiletype@ == name,
        forall|k: int| 0 <= k < i ==> (#[trigger] es[k]).tiletype@ != name,
    ensures
        spec_db_find(es, name) == Some(es[i]),
    decreases es.len(),
{
    if es[0].tiletype@ != name {
        assert(es.drop_first()[i - 1] == es[i]);
        assert forall|k: int| 0 <= k < i - 1 implies (#[trigger] es.drop_first()[k]).tiletype@
            != name by {
            assert(es.drop_first()[k] == es[k + 1]);
        }
        lemma_db_find_at(es.drop_first(), name, i - 1);
    }
}

proof fn lemma_db_find_none(es: Seq<TileDbEntry>, name: Seq<char>)
    requires
        forall|k: int| 0 <= k < es.len() ==> (#[trigger] es[k]).tiletype@ != name,
    ensures
        spec_db_find(es, name) is None,
    decreases es.len(),
{
    if es.len() > 0 {
        assert forall|k: int| 0 <= k < es.len() - 1 implies (
        #[trigger] es.drop_first()[k]).tiletype@ != name by {
            assert(es.drop_first()[k] == es[k + 1]);
        }
        lemma_db_find_none(es.drop_first(), name);
    }
}

impl TileDb {
    /// The raw material of tile type `name`: its first entry, if any.
    pub fn get(&self, name: &str) -> (r: Option<&TileDbEntry>)
        ensures
            match spec_db_find(self.entries@, name@) {
                Some(e) => r matches Some(x) && *x == e,
                None => r is None,
            },
    {
        let n = self.entries.len();
        let mut i: usize = 0;
        while i < n
            invariant
                0 <= i <= n,
                n == self.entries@.len(),
                forall|k: int| 0 <= k < i ==> (#[trigger] self.entries@[k]).tiletype@ != name@,
            decreases n - i,
        {
            if str_eq(self.entries[i].tiletype.as_str(), name) {
                proof {
                    lemma_db_find_at(self.entries@, name@, i as int);
                }
                return Some(&self.entries[i]);
            }
            i = i + 1;
        }
        proof {
            lemma_db_find_none(self.entries@, name@);
        }
        None
    }
}

/// The wire set that building tile type `name` from `es` yields: the
/// deduplicated names of its entry, or nothing for an unknown type.
pub open spec fn type_wires(es: Seq<TileDbEntry>, name: Seq<char>) -> Seq<Seq<char>> {
    match spec_db_find(es, name) {
        Some(e) => dedup_first(spec_all_names(e.data.pips@, e.data.conns@, e.bels@)),
        None => Seq::empty(),
    }
}

/// The registry of built tile-type graphs, one per distinct tile type of a
/// device, keyed by tile-type name.
pub struct TileTypes {
    pub types: Vec<(String, TileType)>,
}

impl TileTypes {
    /// The tile-type names of the registry, in build order.
    pub open spec fn key_names(&self) -> Seq<Seq<char>> {
        self.types@.map_values(|e: (String, TileType)| e.0@)
    }

    /// Builds the registry for one device: computes the distinct tile-type
    /// names of `grid` in first-encounter order and builds exactly one
    /// graph per name from that type's raw database entry — an unknown name
    /// builds from empty raw data. Fails exactly as the failing type's
    /// build does.
    pub fn new(db: &TileDb, ids: &mut IdStringDb, grid: &Vec<Tile>) -> (r: Result<
        TileTypes,
        WireError,
    >)
        requires
            old(ids).inv(),
        ensures
            final(ids).inv(),
            old(ids)@.is_prefix_of(final(ids)@),
            ({
                let uniq = dedup_first(grid@.map_values(|t: Tile| t.tiletype@));
                match r {
                    Ok(reg) => {
                        &&& reg.key_names() == uniq
                        &&& forall|j1: int, j2: int|
                            0 <= j1 < j2 < reg.types@.len() ==> (#[trigger] reg.types@[j1]).0@ != (
                            #[trigger] reg.types@[j2]).0@
                        &&& forall|j: int|
                            0 <= j < reg.types@.len() ==> (#[trigger] reg.types@[j]).1.wf()
                        &&& forall|j: int|
                            0 <= j < reg.types@.len()
                                ==> (#[trigger] reg.types@[j]).1.wires.deep_view() == type_wires(
                                db.entries@,
                                uniq[j],
                            )
                        &&& forall|j: int|
                            0 <= j < reg.types@.len() ==> match spec_db_find(
                                db.entries@,
                                uniq[j],
                            ) {
                                Some(e) => {
                                    &&& groups_view((#[trigger] reg.types@[j]).1.data.pips@)
                                        == groups_view(e.data.pips@)
                                    &&& groups_view(reg.types@[j].1.data.conns@) == groups_view(
                                        e.data.conns@,
                                    )
                                    &&& bels_view(reg.types@[j].1.bels@) == bels_view(e.bels@)
                                },
                                None => {
                                    &&& (#[trigger] reg.types@[j]).1.data.pips@.len() == 0
                                    &&& reg.types@[j].1.data.conns@.len() == 0
                                    &&& reg.types@[j].1.bels@.len() == 0
                                },
                            }
                    },
                    Err(e) => {
                        &&& e matches WireError::Grammar { wire } && !classifiable(wire@)
                        &&& exists|j: int|
                            0 <= j < uniq.len() && type_wires(db.entries@, #[trigger] uniq[j]).contains(
                                e.spec_wire(),
                            )
                    },
                }
            }),
    {
        let ng = grid.len();
        let mut tnames: Vec<String> = Vec::new();
        let ghost gnames = grid@.map_values(|t: Tile| t.tiletype@);
        let mut g: usize = 0;
        proof {
            assert(tnames.deep_view() =~= gnames.take(0));
        }
        while g < ng
            invariant
                0 <= g <= ng,
                ng == grid@.len(),
                gnames == grid@.map_values(|t: Tile| t.tiletype@),
                tnames.deep_view() =~= gnames.take(g as int),
            decreases ng - g,
        {
            let ghost pre = tnames.deep_view();
            tnames.push(grid[g].tiletype.clone());
            proof {
                assert(tnames.deep_view() =~= pre.push(grid@[g as int].tiletype@));
                assert(gnames.take(g + 1 as int) =~= gnames.take(g as int).push(
                    grid@[g as int].tiletype@,
                ));
            }
            g = g + 1;
        }
        proof {
            assert(gnames.take(ng as int) =~= gnames);
        }
        let uniq = dedup_strs(&tnames);
        let ghost uq = dedup_first(gnames);
        proof {
            assert(uniq.deep_view() == uq);
            lemma_dedup_first(gnames);
        }
        let nu = uniq.len();
        let mut types: Vec<(String, TileType)> = Vec::new();
        let mut j: usize = 0;
        while j < nu
            invariant
                0 <= j <= nu,
                nu == uniq@.len(),
                uniq.deep_view() == uq,
                uq == dedup_first(grid@.map_values(|t: Tile| t.tiletype@)),
                uq.len() == nu,
                ids.inv(),
                old(ids)@.is_prefix_of(ids@),
                types@.len() == j,
                forall|k: int| 0 <= k < j ==> (#[trigger] types@[k]).0@ == uq[k],
                forall|k1: int, k2: int|
                    0 <= k1 < k2 < uq.len() ==> uq[k1] != uq[k2],
                forall|k: int| 0 <= k < j ==> (#[trigger] types@[k]).1.wf(),
                forall|k: int|
                    0 <= k < j ==> (#[trigger] types@[k]).1.wires.deep_view() == type_wires(
                        db.entries@,
                        uq[k],
                    ),
                forall|k: int|
                    0 <= k < j ==> match spec_db_find(db.entries@, uq[k]) {
                        Some(e) => {
                            &&& groups_view((#[trigger] types@[k]).1.data.pips@) == groups_view(
                                e.data.pips@,
                            )
                            &&& groups_view(types@[k].1.data.conns@) == groups_view(e.data.conns@)
                            &&& bels_view(types@[k].1.bels@) == bels_view(e.bels@)
                        },
                        None => {
                            &&& (#[trigger] types@[k]).1.data.pips@.len() == 0
                            &&& types@[k].1.data.conns@.len() == 0
                            &&& types@[k].1.bels@.len() == 0
                        },
                    },
            decreases nu - j,
        {
            let ghost pre_tbl = ids@;
            let name = &uniq[j];
            proof {
                assert(uniq.deep_view()[j as int] == uniq@[j as int]@);
            }
            let (cdata, cbels) = match db.get(name.as_str()) {
                Some(e) => (clone_bits(&e.data), clone_bels(&e.bels)),
                None => (TileBitsDatabase { pips: Vec::new(), conns: Vec::new() }, Vec::new()),
            };
            proof {
                match spec_db_find(db.entries@, uq[j as int]) {
                    Some(e) => {
                        lemma_groups_names_view(cdata.pips@, e.data.pips@);
                        lemma_groups_names_view(cdata.conns@, e.data.conns@);
                        lemma_bels_view(cbels@, e.bels@);
                        assert(spec_all_names(cdata.pips@, cdata.conns@, cbels@)
                            == spec_all_names(e.data.pips@, e.data.conns@, e.bels@));
                    },
                    None => {
                        assert(spec_all_names(cdata.pips@, cdata.conns@, cbels@)
                            =~= Seq::<Seq<char>>::empty());
                        assert(dedup_first(spec_all_names(cdata.pips@, cdata.conns@, cbels@))
                            =~= Seq::<Seq<char>>::empty());
                    },
                }
                assert(dedup_first(spec_all_names(cdata.pips@, cdata.conns@, cbels@))
                    == type_wires(db.entries@, uq[j as int]));
            }
            let tt = match TileType::new(cdata, cbels, ids) {
                Ok(tt) => tt,
                Err(e) => {
                    proof {
                        crate::intern::lemma_prefix_transitive(old(ids)@, pre_tbl, ids@);
                        assert(type_wires(db.entries@, uq[j as int]).contains(e.spec_wire()));
                    }
                    return Err(e);
                },
            };
            types.push((name.clone(), tt));
            proof {
                crate::intern::lemma_prefix_transitive(old(ids)@, pre_tbl, ids@);
            }
            j = j + 1;
        }
        let reg = TileTypes { types };
        proof {
            assert(reg.key_names() =~= uq);
            lemma_dedup_first(gnames);
        }
        Ok(reg)
    }

    /// The built graph of tile type `tt`, if the device grid had such a
    /// tile.
    pub fn get(&self, tt: &str) -> (r: Option<&TileType>)
        ensures
            match r {
                Some(t) => exists|j: int|
                    0 <= j < self.types@.len() && (#[trigger] self.types@[j]).0@ == tt@ && *t
                        == self.types@[j].1,
                None => forall|j: int| 0 <= j < self.types@.len() ==> (#[trigger] self.types@[j]).0@
                    != tt@,
            },
    {
        let n = self.types.len();
        let mut i: usize = 0;
        while i < n
            invariant
                0 <= i <= n,
                n == self.types@.len(),
                forall|k: int| 0 <= k < i ==> (#[trigger] self.types@[k]).0@ != tt@,
            decreases n - i,
        {
            if str_eq(self.types[i].0.as_str(), tt) {
                proof {
                    assert(self.types@[i as int].0@ == tt@);
                }
                return Some(&self.types[i].1);
            }
            i = i + 1;
        }
        None
    }
}
} // verus!
