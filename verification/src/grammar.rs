//! The textual wire-name grammars of the device family.
//!
//! An absolute wire name has the form `R<row>C<col>_<base>`. The base part
//! may belong to one of several fixed global-distribution-network patterns,
//! or to the segmented directional grammar `H<len><dir><col><seg>` /
//! `V<len><dir><row><seg>`. All patterns are anchored and case-sensitive;
//! they are structural constants of the device family.

use vstd::prelude::*;
use crate::digits::{is_digit, digit_val, all_digits, digits_val, digit_run_end,
    find_digit_run_end, lemma_digit_run_end, parse_digits_u32};
use crate::text::{match_at, check_match_at};

verus! {

/// Horizontal global branch: `HPBX<dd>00`.
pub open spec fn spec_is_hbranch(s: Seq<char>) -> bool {
    &&& s.len() == 8
    &&& match_at(s, 0, "HPBX"@)
    &&& is_digit(s[4])
    &&& is_digit(s[5])
    &&& s[6] == '0'
    &&& s[7] == '0'
}

/// Vertical global spine: `VPSX<dd>00`.
pub open spec fn spec_is_spine(s: Seq<char>) -> bool {
    &&& s.len() == 8
    &&& match_at(s, 0, "VPSX"@)
    &&& is_digit(s[4])
    &&& is_digit(s[5])
    &&& s[6] == '0'
    &&& s[7] == '0'
}

/// Horizontal global row: `HPRX<dd>00`.
pub open spec fn spec_is_hrow(s: Seq<char>) -> bool {
    &&& s.len() == 8
    &&& match_at(s, 0, "HPRX"@)
    &&& is_digit(s[4])
    &&& is_digit(s[5])
    &&& s[6] == '0'
    &&& s[7] == '0'
}

/// Horizontal row driver: `<L|R>HPRX<digits>`.
pub open spec fn spec_is_hrowd(s: Seq<char>) -> bool {
    &&& s.len() >= 6
    &&& (s[0] == 'L' || s[0] == 'R')
    &&& match_at(s, 1, "HPRX"@)
    &&& all_digits(s.subrange(5, s.len() as int))
    &&& s.len() > 5
}

/// Central clock mux input:
/// `J<H|V>F<N|E|S|W><digits>_<DCSMUX|CMUX>_CORE_<DCSMUX|CMUX><d>`.
pub open spec fn spec_is_cmuxi(s: Seq<char>) -> bool {
    &&& s.len() >= 5
    &&& s[0] == 'J'
    &&& (s[1] == 'H' || s[1] == 'V')
    &&& s[2] == 'F'
    &&& (s[3] == 'N' || s[3] == 'E' || s[3] == 'S' || s[3] == 'W')
    &&& digit_run_end(s, 4) > 4
    &&& spec_cmux_tail(s, digit_run_end(s, 4))
}

/// The fixed tail of the central clock mux pattern, starting at the `_`
/// after the run of digits.
pub open spec fn spec_cmux_tail(s: Seq<char>, at: int) -> bool {
    ||| (s.len() == at + 20 && match_at(s, at, "_DCSMUX_CORE_DCSMUX"@) && is_digit(s[at + 19]))
    ||| (s.len() == at + 18 && match_at(s, at, "_DCSMUX_CORE_CMUX"@) && is_digit(s[at + 17]))
    ||| (s.len() == at + 18 && match_at(s, at, "_CMUX_CORE_DCSMUX"@) && is_digit(s[at + 17]))
    ||| (s.len() == at + 16 && match_at(s, at, "_CMUX_CORE_CMUX"@) && is_digit(s[at + 15]))
}

/// Perimeter clock signal: `<any><c>MID_CORE_<c>MIDMUX`.
pub open spec fn spec_is_midmux(s: Seq<char>) -> bool {
    &&& s.len() >= 17
    &&& match_at(s, s.len() - 16, "MID_CORE_"@)
    &&& match_at(s, s.len() - 6, "MIDMUX"@)
}

/// Edge clock output: `JECLKOUT<d>_ECLKCASMUX_CORE_ECLKCASMUX<digits>`.
pub open spec fn spec_is_eclk(s: Seq<char>) -> bool {
    &&& s.len() > 36
    &&& match_at(s, 0, "JECLKOUT"@)
    &&& is_digit(s[8])
    &&& match_at(s, 9, "_ECLKCASMUX_CORE_ECLKCASMUX"@)
    &&& all_digits(s.subrange(36, s.len() as int))
}

/// Edge clock source: `JMUXIN<digits>_ECLKBANK_CORE_ECLKBANK<digits>`.
pub open spec fn spec_is_eclk_muxin(s: Seq<char>) -> bool {
    &&& match_at(s, 0, "JMUXIN"@)
    &&& digit_run_end(s, 6) > 6
    &&& match_at(s, digit_run_end(s, 6), "_ECLKBANK_CORE_ECLKBANK"@)
    &&& s.len() > digit_run_end(s, 6) + 23
    &&& all_digits(s.subrange(digit_run_end(s, 6) + 23, s.len() as int))
}

/// Any full-global pattern: row driver, central clock mux, perimeter clock,
/// edge clock output or edge clock source.
pub open spec fn spec_is_full_global(s: Seq<char>) -> bool {
    ||| spec_is_hrowd(s)
    ||| spec_is_cmuxi(s)
    ||| spec_is_midmux(s)
    ||| spec_is_eclk(s)
    ||| spec_is_eclk_muxin(s)
}

/// DQS group shared signal:
/// `J<WRPNTR<d>|RDPNTR<d>|DQSR90|DQSW270|DQSW>_DQSBUF_CORE_I_DQS_TOP`.
pub open spec fn spec_is_dqs_group(s: Seq<char>) -> bool {
    ||| (s.len() == 30 && match_at(s, 0, "JWRPNTR"@) && is_digit(s[7])
        && match_at(s, 8, "_DQSBUF_CORE_I_DQS_TOP"@))
    ||| (s.len() == 30 && match_at(s, 0, "JRDPNTR"@) && is_digit(s[7])
        && match_at(s, 8, "_DQSBUF_CORE_I_DQS_TOP"@))
    ||| (s.len() == 29 && match_at(s, 0, "JDQSR90"@) && match_at(s, 7, "_DQSBUF_CORE_I_DQS_TOP"@))
    ||| (s.len() == 30 && match_at(s, 0, "JDQSW270"@) && match_at(s, 8, "_DQSBUF_CORE_I_DQS_TOP"@))
    ||| (s.len() == 27 && match_at(s, 0, "JDQSW"@) && match_at(s, 5, "_DQSBUF_CORE_I_DQS_TOP"@))
}

/// Splits an absolute wire name `R<row>C<col>_<base>` into its row digits,
/// column digits and base name; `None` when the name does not match.
pub open spec fn spec_parse_rc(s: Seq<char>) -> Option<(Seq<char>, Seq<char>, Seq<char>)> {
    if s.len() < 1 || s[0] != 'R' {
        None
    } else {
        let i = digit_run_end(s, 1);
        if i <= 1 || i >= s.len() || s[i] != 'C' {
            None
        } else {
            let j = digit_run_end(s, i + 1);
            if j <= i + 1 || j >= s.len() || s[j] != '_' || j + 1 >= s.len() {
                None
            } else {
                Some((s.subrange(1, i), s.subrange(i + 1, j), s.subrange(j + 1, s.len() as int)))
            }
        }
    }
}

/// A decoded absolute wire address: the owning row and column and the
/// position-dependent base name.
pub struct WireAddress {
    pub row: u32,
    pub col: u32,
    pub base: String,
}

/// Decodes `R<row>C<col>_<base>`; `None` when the name does not match the
/// grammar or a coordinate does not fit in `u32`.
pub fn parse_rc(s: &str) -> (r: Option<WireAddress>)
    ensures
        match spec_parse_rc(s@) {
            Some(parts) => {
                if digits_val(parts.0) <= u32::MAX && digits_val(parts.1) <= u32::MAX {
                    r matches Some(w) && w.row == digits_val(parts.0) && w.col == digits_val(
                        parts.1,
                    ) && w.base@ == parts.2
                } else {
                    r is None
                }
            },
            None => r is None,
        },
{
    let n = s.unicode_len();
    if n < 1 || s.get_char(0) != 'R' {
        return None;
    }
    let i = find_digit_run_end(s, 1);
    proof {
        lemma_digit_run_end(s@, 1);
    }
    if i <= 1 || i >= n || s.get_char(i) != 'C' {
        return None;
    }
    let j = find_digit_run_end(s, i + 1);
    proof {
        lemma_digit_run_end(s@, i + 1);
    }
    if j <= i + 1 || j >= n || s.get_char(j) != '_' || j + 1 >= n {
        return None;
    }
    proof {
        assert(all_digits(s@.subrange(1, i as int))) by {
            assert(forall|k: int|
                0 <= k < i - 1 ==> is_digit(#[trigger] s@.subrange(1, i as int)[k]));
        }
        assert(all_digits(s@.subrange(i + 1, j as int))) by {
            assert(forall|k: int|
                0 <= k < j - i - 1 ==> is_digit(#[trigger] s@.subrange(i + 1, j as int)[k]));
        }
    }
    let row = match parse_digits_u32(s, 1, i) {
        Some(v) => v,
        None => { return None; },
    };
    let col = match parse_digits_u32(s, i + 1, j) {
        Some(v) => v,
        None => { return None; },
    };
    proof {
        crate::digits::lemma_digits_val_nonneg(s@.subrange(1, i as int));
        crate::digits::lemma_digits_val_nonneg(s@.subrange(i + 1, j as int));
        assert(spec_parse_rc(s@) == Some(
            (s@.subrange(1, i as int), s@.subrange(i + 1, j as int), s@.subrange(
                j + 1,
                s@.len() as int,
            )),
        ));
    }
    let base = String::from_str(s.substring_char(j + 1, n));
    Some(WireAddress { row, col, base })
}

/// Recognizes `HPBX<dd>00`, the horizontal global branch pattern.
pub fn is_hbranch_wn(s: &str) -> (r: bool)
    ensures
        r == spec_is_hbranch(s@),
{
    if s.unicode_len() != 8 {
        return false;
    }
    check_match_at(s, 0, "HPBX") && digit_at(s, 4) && digit_at(s, 5) && s.get_char(6) == '0'
        && s.get_char(7) == '0'
}

/// Recognizes `VPSX<dd>00`, the vertical global spine pattern.
pub fn is_spine_wn(s: &str) -> (r: bool)
    ensures
        r == spec_is_spine(s@),
{
    if s.unicode_len() != 8 {
        return false;
    }
    check_match_at(s, 0, "VPSX") && digit_at(s, 4) && digit_at(s, 5) && s.get_char(6) == '0'
        && s.get_char(7) == '0'
}

/// Recognizes `HPRX<dd>00`, the horizontal global row pattern.
pub fn is_hrow_wn(s: &str) -> (r: bool)
    ensures
        r == spec_is_hrow(s@),
{
    if s.unicode_len() != 8 {
        return false;
    }
    check_match_at(s, 0, "HPRX") && digit_at(s, 4) && digit_at(s, 5) && s.get_char(6) == '0'
        && s.get_char(7) == '0'
}

/// Tests for a digit character at index `i`.
fn digit_at(s: &str, i: usize) -> (r: bool)
    requires
        i < s@.len(),
    ensures
        r == is_digit(s@[i as int]),
{
    let c = s.get_char(i);
    c >= '0' && c <= '9'
}

/// Tests that every character of `s[from..]` is a digit and that there is
/// at least one.
fn digits_to_end(s: &str, from: usize) -> (r: bool)
    requires
        from <= s@.len(),
    ensures
        r == (from < s@.len() && all_digits(s@.subrange(from as int, s@.len() as int))),
{
    let n = s.unicode_len();
    if from >= n {
        return false;
    }
    let e = find_digit_run_end(s, from);
    proof {
        lemma_digit_run_end(s@, from as int);
        if e == n {
            assert(all_digits(s@.subrange(from as int, n as int)));
        } else {
            assert(!is_digit(s@.subrange(from as int, n as int)[e - from]));
        }
    }
    e == n
}

/// Recognizes the horizontal row driver pattern `<L|R>HPRX<digits>`.
pub fn is_hrowd_wn(s: &str) -> (r: bool)
    ensures
        r == spec_is_hrowd(s@),
{
    if s.unicode_len() < 6 {
        return false;
    }
    let c0 = s.get_char(0);
    (c0 == 'L' || c0 == 'R') && check_match_at(s, 1, "HPRX") && digits_to_end(s, 5)
}

/// Recognizes the central clock mux pattern
/// `J<H|V>F<N|E|S|W><digits>_<DCSMUX|CMUX>_CORE_<DCSMUX|CMUX><d>`.
pub fn is_cmuxi_wn(s: &str) -> (r: bool)
    ensures
        r == spec_is_cmuxi(s@),
{
    let n = s.unicode_len();
    if n < 5 {
        return false;
    }
    if s.get_char(0) != 'J' {
        return false;
    }
    let c1 = s.get_char(1);
    if !(c1 == 'H' || c1 == 'V') {
        return false;
    }
    if s.get_char(2) != 'F' {
        return false;
    }
    let c3 = s.get_char(3);
    if !(c3 == 'N' || c3 == 'E' || c3 == 'S' || c3 == 'W') {
        return false;
    }
    let e = find_digit_run_end(s, 4);
    proof {
        lemma_digit_run_end(s@, 4);
    }
    if e == 4 {
        return false;
    }
    if n - e == 20 && check_match_at(s, e, "_DCSMUX_CORE_DCSMUX") {
        return digit_at(s, e + 19);
    }
    if n - e == 18 && check_match_at(s, e, "_DCSMUX_CORE_CMUX") {
        return digit_at(s, e + 17);
    }
    if n - e == 18 && check_match_at(s, e, "_CMUX_CORE_DCSMUX") {
        return digit_at(s, e + 17);
    }
    if n - e == 16 && check_match_at(s, e, "_CMUX_CORE_CMUX") {
        return digit_at(s, e + 15);
    }
    proof {
        reveal_strlit("_DCSMUX_CORE_DCSMUX");
        reveal_strlit("_DCSMUX_CORE_CMUX");
        reveal_strlit("_CMUX_CORE_DCSMUX");
        reveal_strlit("_CMUX_CORE_CMUX");
    }
    false
}

/// Recognizes the perimeter clock pattern `<any><c>MID_CORE_<c>MIDMUX`.
pub fn is_midmux_wn(s: &str) -> (r: bool)
    ensures
        r == spec_is_midmux(s@),
{
    let n = s.unicode_len();
    if n < 17 {
        return false;
    }
    proof {
        reveal_strlit("MID_CORE_");
        reveal_strlit("MIDMUX");
    }
    check_match_at(s, n - 16, "MID_CORE_") && check_match_at(s, n - 6, "MIDMUX")
}

/// Recognizes the edge clock output pattern
/// `JECLKOUT<d>_ECLKCASMUX_CORE_ECLKCASMUX<digits>`.
pub fn is_eclk_wn(s: &str) -> (r: bool)
    ensures
        r == spec_is_eclk(s@),
{
    let n = s.unicode_len();
    if n <= 36 {
        return false;
    }
    check_match_at(s, 0, "JECLKOUT") && digit_at(s, 8)
        && check_match_at(s, 9, "_ECLKCASMUX_CORE_ECLKCASMUX") && digits_to_end(s, 36)
}

/// Recognizes the edge clock source pattern
/// `JMUXIN<digits>_ECLKBANK_CORE_ECLKBANK<digits>`.
pub fn is_eclk_muxin_wn(s: &str) -> (r: bool)
    ensures
        r == spec_is_eclk_muxin(s@),
{
    let n = s.unicode_len();
    if n < 7 {
        proof {
            reveal_strlit("JMUXIN");
            if match_at(s@, 0, "JMUXIN"@) {
                lemma_digit_run_end(s@, 6);
            }
        }
        return false;
    }
    if !check_match_at(s, 0, "JMUXIN") {
        return false;
    }
    let e = find_digit_run_end(s, 6);
    proof {
        lemma_digit_run_end(s@, 6);
        reveal_strlit("_ECLKBANK_CORE_ECLKBANK");
    }
    if e == 6 {
        return false;
    }
    if !check_match_at(s, e, "_ECLKBANK_CORE_ECLKBANK") {
        return false;
    }
    if n - e < 23 {
        return false;
    }
    digits_to_end(s, e + 23)
}

/// Recognizes any full-global pattern.
pub fn is_full_global_wn(s: &str) -> (r: bool)
    ensures
        r == spec_is_full_global(s@),
{
    is_hrowd_wn(s) || is_cmuxi_wn(s) || is_midmux_wn(s) || is_eclk_wn(s) || is_eclk_muxin_wn(s)
}

/// Recognizes the DQS group pattern.
pub fn is_dqs_group_wn(s: &str) -> (r: bool)
    ensures
        r == spec_is_dqs_group(s@),
{
    let n = s.unicode_len();
    proof {
        reveal_strlit("JWRPNTR");
        reveal_strlit("JRDPNTR");
        reveal_strlit("JDQSR90");
        reveal_strlit("JDQSW270");
        reveal_strlit("JDQSW");
        reveal_strlit("_DQSBUF_CORE_I_DQS_TOP");
    }
    if n == 30 && check_match_at(s, 0, "JWRPNTR") && digit_at(s, 7)
        && check_match_at(s, 8, "_DQSBUF_CORE_I_DQS_TOP") {
        return true;
    }
    if n == 30 && check_match_at(s, 0, "JRDPNTR") && digit_at(s, 7)
        && check_match_at(s, 8, "_DQSBUF_CORE_I_DQS_TOP") {
        return true;
    }
    if n == 29 && check_match_at(s, 0, "JDQSR90")
        && check_match_at(s, 7, "_DQSBUF_CORE_I_DQS_TOP") {
        return true;
    }
    if n == 30 && check_match_at(s, 0, "JDQSW270")
        && check_match_at(s, 8, "_DQSBUF_CORE_I_DQS_TOP") {
        return true;
    }
    if n == 27 && check_match_at(s, 0, "JDQSW")
        && check_match_at(s, 5, "_DQSBUF_CORE_I_DQS_TOP") {
        return true;
    }
    false
}

} // verus!
