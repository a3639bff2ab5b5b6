//! Classification of a canonical name's prefix into a structured
//! cross-tile relationship.
//!
//! A canonical name is `[<prefix>:]<base>`. The prefix is one of the fixed
//! class tokens (`BRANCH`, `BRANCH_L`, `BRANCH_R`, `SPINE`, `HROW`, `G`,
//! `DQSG`) or a compound relative-offset token matching
//! `([NS]<d+>)?([EW]<d+>)?`. Classification is a pure function of the
//! prefix text alone, independent of absolute tile position.

use vstd::prelude::*;
use crate::WireError;
use crate::digits::{is_digit, all_digits, digits_val, digit_run_end, find_digit_run_end,
    lemma_digit_run_end, lemma_digits_val_nonneg, parse_digits_u32};
use crate::text::{find_char, scan_for_char};

verus! {

/// Which side of its TAP tile a branch-driver wire lies on.
#[derive(PartialEq, Eq, Structural, Clone, Copy, Debug, Hash, PartialOrd, Ord)]
pub enum BranchSide {
    Left,
    Right,
}

/// The relationship of a wire to tiles other than its own: a relative grid
/// offset, or membership in one of the fixed global distribution networks.
#[derive(PartialEq, Eq, Structural, Clone, Copy, Debug, Hash, PartialOrd, Ord)]
pub enum Neighbour {
    RelXY { rel_x: i32, rel_y: i32 },
    Branch,
    BranchDriver { side: BranchSide },
    Spine,
    HRow,
    Global,
    DQSGroup,
}

/// A relative-offset component letter.
pub open spec fn is_nesw(c: char) -> bool {
    c == 'N' || c == 'E' || c == 'S' || c == 'W'
}

/// First index at or after `from` holding an offset letter, or the length
/// of `s`: each offset token runs to the next such letter.
pub open spec fn nesw_end(s: Seq<char>, from: int) -> int
    decreases s.len() - from,
{
    if from < 0 || from >= s.len() {
        s.len() as int
    } else if is_nesw(s[from]) {
        from
    } else {
        nesw_end(s, from + 1)
    }
}

/// Reads the offset tokens of `p` from index `i` on, starting from the
/// accumulated offsets `(rx, ry)`; `N` sets `rel_y` negative, `S` positive,
/// `E` sets `rel_x` positive, `W` negative, a later token for the same axis
/// overriding an earlier one. `None` is a grammar error: a token without
/// its letter, an empty or non-digit magnitude, or one over `i32::MAX`.
pub open spec fn spec_parse_rel_from(p: Seq<char>, i: int, rx: int, ry: int) -> Option<(int, int)>
    decreases p.len() - i,
{
    if i >= p.len() {
        Some((rx, ry))
    } else if !is_nesw(p[i]) {
        None
    } else {
        let j = nesw_end(p, i + 1);
        let mag = p.subrange(i + 1, j);
        if j <= i || j > p.len() {
            // cannot happen: the token end lies within the prefix
            None
        } else if mag.len() == 0 || !all_digits(mag) || digits_val(mag) > i32::MAX {
            None
        } else if p[i] == 'N' {
            spec_parse_rel_from(p, j, rx, -digits_val(mag))
        } else if p[i] == 'S' {
            spec_parse_rel_from(p, j, rx, digits_val(mag))
        } else if p[i] == 'E' {
            spec_parse_rel_from(p, j, digits_val(mag), ry)
        } else {
            spec_parse_rel_from(p, j, -digits_val(mag), ry)
        }
    }
}

/// Classifies a compound relative-offset prefix; axes without a token
/// default to offset zero.
pub open spec fn spec_parse_rel(p: Seq<char>) -> Option<(int, int)> {
    if p.len() == 0 {
        None
    } else {
        spec_parse_rel_from(p, 0, 0, 0)
    }
}

/// Classifies the prefix before the `:` separator: a fixed class token
/// literally, anything else as a compound relative-offset token.
pub open spec fn spec_classify_prefix(p: Seq<char>) -> Option<Neighbour> {
    if p == "BRANCH"@ {
        Some(Neighbour::Branch)
    } else if p == "BRANCH_L"@ {
        Some(Neighbour::BranchDriver { side: BranchSide::Left })
    } else if p == "BRANCH_R"@ {
        Some(Neighbour::BranchDriver { side: BranchSide::Right })
    } else if p == "SPINE"@ {
        Some(Neighbour::Spine)
    } else if p == "HROW"@ {
        Some(Neighbour::HRow)
    } else if p == "G"@ {
        Some(Neighbour::Global)
    } else if p == "DQSG"@ {
        Some(Neighbour::DQSGroup)
    } else {
        match spec_parse_rel(p) {
            Some(r) => Some(Neighbour::RelXY { rel_x: r.0 as i32, rel_y: r.1 as i32 }),
            None => None,
        }
    }
}

/// Splits a canonical name at its first `:` and classifies the prefix; a
/// name without `:` is its own base and relates to no other tile.
pub open spec fn spec_parse_wire(s: Seq<char>) -> Option<(Option<Neighbour>, Seq<char>)> {
    let p = find_char(s, ':', 0);
    if p == s.len() {
        Some((None, s))
    } else {
        match spec_classify_prefix(s.subrange(0, p)) {
            Some(n) => Some((Some(n), s.subrange(p + 1, s.len() as int))),
            None => None,
        }
    }
}

/// Scans forward from `from` to the next offset letter.
fn scan_nesw_end(s: &str, from: usize) -> (j: usize)
    requires
        from <= s@.len(),
    ensures
        j == nesw_end(s@, from as int),
{
    proof {
        lemma_nesw_end(s@, from as int);
    }
    let n = s.unicode_len();
    let mut j = from;
    while j < n
        invariant
            from <= j <= n,
            n == s@.len(),
            forall|i: int| from <= i < j ==> !is_nesw(#[trigger] s@[i]),
            nesw_end(s@, from as int) >= j,
        decreases n - j,
    {
        let c = s.get_char(j);
        if c == 'N' || c == 'E' || c == 'S' || c == 'W' {
            proof {
                lemma_nesw_stops(s@, from as int, j as int);
            }
            return j;
        }
        proof {
            lemma_nesw_extends(s@, from as int, j as int);
        }
        j = j + 1;
    }
    j
}

pub proof fn lemma_nesw_end(s: Seq<char>, from: int)
    requires
        0 <= from <= s.len(),
    ensures
        from <= nesw_end(s, from) <= s.len(),
        forall|i: int| from <= i < nesw_end(s, from) ==> !is_nesw(#[trigger] s[i]),
        nesw_end(s, from) < s.len() ==> is_nesw(s[nesw_end(s, from)]),
    decreases s.len() - from,
{
    if from < s.len() && !is_nesw(s[from]) {
        lemma_nesw_end(s, from + 1);
    }
}

pub proof fn lemma_nesw_extends(s: Seq<char>, from: int, j: int)
    requires
        0 <= from <= j < s.len(),
        forall|i: int| from <= i <= j ==> !is_nesw(#[trigger] s[i]),
    ensures
        nesw_end(s, from) >= j + 1,
    decreases j - from,
{
    if from < j {
        lemma_nesw_extends(s, from + 1, j);
    } else {
        lemma_nesw_end(s, from + 1);
    }
}

pub proof fn lemma_nesw_stops(s: Seq<char>, from: int, j: int)
    requires
        0 <= from <= j < s.len(),
        forall|i: int| from <= i < j ==> !is_nesw(#[trigger] s[i]),
        is_nesw(s[j]),
    ensures
        nesw_end(s, from) == j,
    decreases j - from,
{
    if from < j {
        lemma_nesw_stops(s, from + 1, j);
    }
}

/// Reads a compound relative-offset prefix.
fn parse_rel(p: &str) -> (r: Option<(i32, i32)>)
    ensures
        match spec_parse_rel(p@) {
            Some(t) => r matches Some(o) && o.0 == t.0 && o.1 == t.1,
            None => r is None,
        },
{
    let n = p.unicode_len();
    if n == 0 {
        return None;
    }
    let mut rx: i32 = 0;
    let mut ry: i32 = 0;
    let mut i: usize = 0;
    while i < n
        invariant
            0 <= i <= n,
            n == p@.len(),
            spec_parse_rel_from(p@, i as int, rx as int, ry as int) == spec_parse_rel_from(
                p@,
                0,
                0,
                0,
            ),
        decreases n - i,
    {
        let c = p.get_char(i);
        if !(c == 'N' || c == 'E' || c == 'S' || c == 'W') {
            return None;
        }
        let j = scan_nesw_end(p, i + 1);
        proof {
            lemma_nesw_end(p@, i + 1);
        }
        let de = find_digit_run_end(p, i + 1);
        proof {
            lemma_digit_run_end(p@, i + 1);
            if de != j {
                if de < j {
                    assert(!is_digit(p@[de as int]));
                    assert(!all_digits(p@.subrange(i + 1, j as int))) by {
                        assert(p@.subrange(i + 1, j as int)[de - i - 1] == p@[de as int]);
                    }
                } else {
                    assert(is_nesw(p@[j as int]));
                    assert(is_digit(p@[j as int]));
                }
            }
        }
        if de != j {
            return None;
        }
        if j == i + 1 {
            return None;
        }
        proof {
            assert(all_digits(p@.subrange(i + 1, j as int))) by {
                assert(forall|k: int|
                    0 <= k < j - i - 1 ==> is_digit(#[trigger] p@.subrange(i + 1, j as int)[k]));
            }
            lemma_digits_val_nonneg(p@.subrange(i + 1, j as int));
        }
        let v = match parse_digits_u32(p, i + 1, j) {
            Some(v) => v,
            None => {
                return None;
            },
        };
        if v > 0x7fff_ffff {
            return None;
        }
        if c == 'N' {
            ry = -(v as i32);
        } else if c == 'S' {
            ry = v as i32;
        } else if c == 'E' {
            rx = v as i32;
        } else {
            rx = -(v as i32);
        }
        i = j;
    }
    Some((rx, ry))
}

impl Neighbour {
    /// Splits a canonical wire name into its neighbour classification and
    /// base name: `(None, s)` when `s` has no `:`; otherwise the prefix
    /// before the first `:` is classified and the remainder is the base. A
    /// prefix that is neither a fixed class token nor a well-formed offset
    /// token is a fatal grammar error.
    pub fn parse_wire(s: &str) -> (r: Result<(Option<Neighbour>, String), WireError>)
        ensures
            match spec_parse_wire(s@) {
                Some(t) => r matches Ok(o) && o.0 == t.0 && o.1@ == t.1,
                None => r matches Err(e) && e matches WireError::Grammar { wire } && wire@ == s@,
            },
    {
        let n = s.unicode_len();
        let p = scan_for_char(s, ':', 0);
        if p == n {
            return Ok((None, String::from_str(s)));
        }
        proof {
            crate::text::lemma_find_char(s@, ':', 0);
        }
        let prefix = s.substring_char(0, p);
        let rest = String::from_str(s.substring_char(p + 1, n));
        let fixed: Option<Neighbour> = if crate::text::str_eq(prefix, "BRANCH") {
            Some(Neighbour::Branch)
        } else if crate::text::str_eq(prefix, "BRANCH_L") {
            Some(Neighbour::BranchDriver { side: BranchSide::Left })
        } else if crate::text::str_eq(prefix, "BRANCH_R") {
            Some(Neighbour::BranchDriver { side: BranchSide::Right })
        } else if crate::text::str_eq(prefix, "SPINE") {
            Some(Neighbour::Spine)
        } else if crate::text::str_eq(prefix, "HROW") {
            Some(Neighbour::HRow)
        } else if crate::text::str_eq(prefix, "G") {
            Some(Neighbour::Global)
        } else if crate::text::str_eq(prefix, "DQSG") {
            Some(Neighbour::DQSGroup)
        } else {
            None
        };
        if let Some(nb) = fixed {
            return Ok((Some(nb), rest));
        }
        match parse_rel(prefix) {
            Some((rx, ry)) => Ok((Some(Neighbour::RelXY { rel_x: rx, rel_y: ry }), rest)),
            None => Err(WireError::Grammar { wire: String::from_str(s) }),
        }
    }
}

} // verus!
