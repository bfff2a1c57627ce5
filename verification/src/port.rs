//! Virtual port provisioning: the parser that recovers the OS-assigned
//! companion port name from the null-modem driver's `list` output, the
//! probe for an already-provisioned local port, and the driver command
//! plan that installs and configures the port pair.
//!
//! A `list` output line yields an entry when it mentions one of the two
//! virtual port slots (the slot prefix followed by at least one digit)
//! and, after the slot, carries a port-name attribute. A
//! `RealPortName=COM<digits>` attribute is authoritative; otherwise the
//! token following `PortName=` is taken. Later lines override earlier
//! ones for the same slot.

use vstd::prelude::*;
use crate::text::{
    contains_pat, digit_run_end, digit_run_end_at, is_digit, is_match_at, is_token_char, match_at,
    token_run_end, token_run_end_at,
};

verus! {

/// Prefix of the local slot's identifier.
pub open spec fn slot_a_pat() -> Seq<char> {
    "CNCA"@
}

/// Prefix of the companion slot's identifier.
pub open spec fn slot_b_pat() -> Seq<char> {
    "CNCB"@
}

/// The authoritative attribute: an OS-level COM name.
pub open spec fn real_name_pat() -> Seq<char> {
    "RealPortName=COM"@
}

/// The configured-name attribute.
pub open spec fn port_name_pat() -> Seq<char> {
    "PortName="@
}

/// A slot identifier (either slot prefix followed by a digit) starts at `i`.
pub open spec fn slot_at(s: Seq<char>, i: int) -> bool {
    (match_at(s, slot_a_pat(), i) || match_at(s, slot_b_pat(), i)) && i + 4 < s.len() && is_digit(
        s[i + 4],
    )
}

/// A `RealPortName=COM<digit>` attribute starts at `i`.
pub open spec fn real_at(s: Seq<char>, i: int) -> bool {
    match_at(s, real_name_pat(), i) && i + 16 < s.len() && is_digit(s[i + 16])
}

/// A `PortName=<token>` attribute starts at `i`.
pub open spec fn port_at(s: Seq<char>, i: int) -> bool {
    match_at(s, port_name_pat(), i) && i + 9 < s.len() && is_token_char(s[i + 9])
}

/// First position at or after `i` where a slot identifier starts;
/// `s.len()` when there is none.
pub open spec fn first_slot_from(s: Seq<char>, i: int) -> int
    decreases s.len() - i,
{
    if i < 0 || i >= s.len() {
        s.len() as int
    } else if slot_at(s, i) {
        i
    } else {
        first_slot_from(s, i + 1)
    }
}

/// First position at or after `i` where a `RealPortName=COM<digit>`
/// attribute starts; `s.len()` when there is none.
pub open spec fn first_real_from(s: Seq<char>, i: int) -> int
    decreases s.len() - i,
{
    if i < 0 || i >= s.len() {
        s.len() as int
    } else if real_at(s, i) {
        i
    } else {
        first_real_from(s, i + 1)
    }
}

/// First position at or after `i` where a `PortName=<token>` attribute
/// starts; `s.len()` when there is none.
pub open spec fn first_port_from(s: Seq<char>, i: int) -> int
    decreases s.len() - i,
{
    if i < 0 || i >= s.len() {
        s.len() as int
    } else if port_at(s, i) {
        i
    } else {
        first_port_from(s, i + 1)
    }
}

/// The resolved name carried by the text after a slot identifier: the
/// digits-bearing `RealPortName=COM...` value when one occurs, else the
/// token after the first `PortName=`, else nothing.
pub open spec fn attr_value(s: Seq<char>) -> Option<Seq<char>> {
    let i = first_real_from(s, 0);
    if i < s.len() {
        Some(s.subrange(i + 13, digit_run_end(s, i + 16)))
    } else {
        let k = first_port_from(s, 0);
        if k < s.len() {
            Some(s.subrange(k + 9, token_run_end(s, k + 9)))
        } else {
            None
        }
    }
}

/// The (slot, resolved name) pair a single output line contributes, if
/// any: the first slot identifier on the line paired with the attribute
/// value found after it.
pub open spec fn line_entry(s: Seq<char>) -> Option<(Seq<char>, Seq<char>)> {
    let i = first_slot_from(s, 0);
    if i < s.len() {
        let j = digit_run_end(s, i + 4);
        match attr_value(s.subrange(j, s.len() as int)) {
            Some(v) => Some((s.subrange(i, j), v)),
            None => None,
        }
    } else {
        None
    }
}

/// Position of the first line break at or after `i`; `s.len()` when
/// there is none.
pub open spec fn first_nl_from(s: Seq<char>, i: int) -> int
    decreases s.len() - i,
{
    if i < 0 || i >= s.len() {
        s.len() as int
    } else if s[i] == '\n' {
        i
    } else {
        first_nl_from(s, i + 1)
    }
}

/// Drop a single trailing carriage return, as the driver emits
/// CRLF-terminated lines.
pub open spec fn strip_cr(s: Seq<char>) -> Seq<char> {
    if s.len() > 0 && s[s.len() - 1] == '\r' {
        s.drop_last()
    } else {
        s
    }
}

/// The first line break lies between `i` and the end of the text.
pub proof fn lemma_first_nl_bounds(s: Seq<char>, i: int)
    requires
        0 <= i <= s.len(),
    ensures
        i <= first_nl_from(s, i) <= s.len(),
        first_nl_from(s, i) < s.len() ==> s[first_nl_from(s, i)] == '\n',
    decreases s.len() - i,
{
    if i < s.len() && s[i] != '\n' {
        lemma_first_nl_bounds(s, i + 1);
    }
}

/// The lines of the driver output: split at each line feed, dropping a
/// trailing carriage return from every line.
pub open spec fn split_lines_spec(s: Seq<char>) -> Seq<Seq<char>>
    decreases s.len(),
    via split_lines_spec_dec
{
    if s.len() == 0 {
        Seq::empty()
    } else {
        let k = first_nl_from(s, 0);
        if k == s.len() {
            seq![strip_cr(s)]
        } else {
            seq![strip_cr(s.subrange(0, k))] + split_lines_spec(
                s.subrange(k + 1, s.len() as int),
            )
        }
    }
}

#[via_fn]
proof fn split_lines_spec_dec(s: Seq<char>) {
    if s.len() > 0 {
        lemma_first_nl_bounds(s, 0);
    }
}

/// The slot-to-name mapping the whole output yields: entries of later
/// lines override earlier ones.
pub open spec fn ports_map_spec(lines: Seq<Seq<char>>) -> Map<Seq<char>, Seq<char>>
    decreases lines.len(),
{
    if lines.len() == 0 {
        Map::empty()
    } else {
        let m = ports_map_spec(lines.drop_last());
        match line_entry(lines.last()) {
            Some(e) => m.insert(e.0, e.1),
            None => m,
        }
    }
}

/// The name resolved for `slot` from the raw driver output: the mapped
/// value, or empty when no line yields an entry for the slot.
pub open spec fn resolve_name(output: Seq<char>, slot: Seq<char>) -> Seq<char> {
    let m = ports_map_spec(split_lines_spec(output));
    if m.dom().contains(slot) {
        m[slot]
    } else {
        Seq::empty()
    }
}

fn slot_at_exec(s: &str, n: usize, i: usize) -> (r: bool)
    requires
        n == s@.len(),
        i <= n,
    ensures
        r == slot_at(s@, i as int),
{
    proof {
        reveal_strlit("CNCA");
        reveal_strlit("CNCB");
    }
    if n - i < 5 {
        assert(!slot_at(s@, i as int));
        false
    } else if is_match_at(s, "CNCA", i) || is_match_at(s, "CNCB", i) {
        let c = s.get_char(i + 4);
        '0' <= c && c <= '9'
    } else {
        false
    }
}

fn real_at_exec(s: &str, n: usize, i: usize) -> (r: bool)
    requires
        n == s@.len(),
        i <= n,
    ensures
        r == real_at(s@, i as int),
{
    proof {
        reveal_strlit("RealPortName=COM");
    }
    if n - i < 17 {
        assert(!real_at(s@, i as int));
        false
    } else if is_match_at(s, "RealPortName=COM", i) {
        let c = s.get_char(i + 16);
        '0' <= c && c <= '9'
    } else {
        false
    }
}

fn port_at_exec(s: &str, n: usize, i: usize) -> (r: bool)
    requires
        n == s@.len(),
        i <= n,
    ensures
        r == port_at(s@, i as int),
{
    proof {
        reveal_strlit("PortName=");
    }
    if n - i < 10 {
        assert(!port_at(s@, i as int));
        false
    } else if is_match_at(s, "PortName=", i) {
        let c = s.get_char(i + 9);
        c != ' ' && c != '\t' && c != ',' && c != '\r' && c != '\n'
    } else {
        false
    }
}

fn find_slot_from(s: &str, n: usize, i: usize) -> (r: usize)
    requires
        n == s@.len(),
        i <= n,
    ensures
        r as int == first_slot_from(s@, i as int),
        i <= r <= n,
        r < n ==> slot_at(s@, r as int),
    decreases n - i,
{
    if i == n {
        n
    } else if slot_at_exec(s, n, i) {
        i
    } else {
        find_slot_from(s, n, i + 1)
    }
}

fn find_real_from(s: &str, n: usize, i: usize) -> (r: usize)
    requires
        n == s@.len(),
        i <= n,
    ensures
        r as int == first_real_from(s@, i as int),
        i <= r <= n,
        r < n ==> real_at(s@, r as int),
    decreases n - i,
{
    if i == n {
        n
    } else if real_at_exec(s, n, i) {
        i
    } else {
        find_real_from(s, n, i + 1)
    }
}

fn find_port_from(s: &str, n: usize, i: usize) -> (r: usize)
    requires
        n == s@.len(),
        i <= n,
    ensures
        r as int == first_port_from(s@, i as int),
        i <= r <= n,
        r < n ==> port_at(s@, r as int),
    decreases n - i,
{
    if i == n {
        n
    } else if port_at_exec(s, n, i) {
        i
    } else {
        find_port_from(s, n, i + 1)
    }
}

/// Extract the resolved name carried after a slot identifier.
fn attr_value_exec(s: &str) -> (r: Option<String>)
    ensures
        match r {
            Some(v) => attr_value(s@) == Some(v@),
            None => attr_value(s@) is None,
        },
{
    let n = s.unicode_len();
    let i = find_real_from(s, n, 0);
    if i < n {
        proof {
            reveal_strlit("RealPortName=COM");
        }
        let e = digit_run_end_at(s, n, i + 16);
        Some(s.substring_char(i + 13, e).to_owned())
    } else {
        let k = find_port_from(s, n, 0);
        if k < n {
            proof {
                reveal_strlit("PortName=");
            }
            let e = token_run_end_at(s, n, k + 9);
            Some(s.substring_char(k + 9, e).to_owned())
        } else {
            None
        }
    }
}

/// Parse one line of driver output into its (slot, resolved name)
/// entry, if the line yields one.
pub fn parse_line(line: &str) -> (r: Option<(String, String)>)
    ensures
        match r {
            Some(e) => line_entry(line@) == Some((e.0@, e.1@)),
            None => line_entry(line@) is None,
        },
{
    let n = line.unicode_len();
    let i = find_slot_from(line, n, 0);
    if i < n {
        proof {
            reveal_strlit("CNCA");
            reveal_strlit("CNCB");
        }
        let j = digit_run_end_at(line, n, i + 4);
        let rest = line.substring_char(j, n);
        match attr_value_exec(rest) {
            Some(v) => {
                let key = line.substring_char(i, j).to_owned();
                Some((key, v))
            },
            None => None,
        }
    } else {
        None
    }
}

fn find_nl_from(s: &str, n: usize, i: usize) -> (r: usize)
    requires
        n == s@.len(),
        i <= n,
    ensures
        r as int == first_nl_from(s@, i as int),
        i <= r <= n,
    decreases n - i,
{
    if i == n {
        n
    } else if s.get_char(i) == '\n' {
        i
    } else {
        find_nl_from(s, n, i + 1)
    }
}

/// Split driver output into lines, as the driver terminates lines with
/// either a line feed or a carriage return and line feed.
pub fn split_lines<'a>(s: &'a str) -> (r: Vec<&'a str>)
    ensures
        r@.map_values(|t: &str| t@) == split_lines_spec(s@),
    decreases s@.len(),
{
    let n = s.unicode_len();
    let mut r: Vec<&'a str> = Vec::new();
    if n == 0 {
        assert(r@.map_values(|t: &str| t@) =~= split_lines_spec(s@));
        return r;
    }
    let k = find_nl_from(s, n, 0);
    let e: usize = if k > 0 && s.get_char(k - 1) == '\r' {
        k - 1
    } else {
        k
    };
    let head = s.substring_char(0, e);
    if k == n {
        proof {
            assert(s@.subrange(0, n as int) =~= s@);
            assert(head@ =~= strip_cr(s@));
        }
        r.push(head);
        assert(r@.map_values(|t: &str| t@) =~= split_lines_spec(s@));
        r
    } else {
        proof {
            assert(head@ =~= strip_cr(s@.subrange(0, k as int)));
        }
        let rest = s.substring_char(k + 1, n);
        let mut tail = split_lines(rest);
        r.push(head);
        r.append(&mut tail);
        assert(r@.map_values(|t: &str| t@) =~= split_lines_spec(s@));
        r
    }
}

/// Every entry a line yields carries a non-empty resolved name: the
/// authoritative value holds `COM` and at least one digit, and a plain
/// token holds at least one character.
pub proof fn lemma_entry_value_nonempty(line: Seq<char>)
    ensures
        match line_entry(line) {
            Some(e) => e.1.len() > 0,
            None => true,
        },
{
    if first_slot_from(line, 0) < line.len() {
        lemma_first_slot_bounds(line, 0);
        let j = digit_run_end(line, first_slot_from(line, 0) + 4);
        let rest = line.subrange(j, line.len() as int);
        lemma_attr_value_nonempty(rest);
    }
}

/// The first slot position is in bounds and marks a slot identifier.
pub proof fn lemma_first_slot_bounds(s: Seq<char>, i: int)
    requires
        0 <= i <= s.len(),
    ensures
        i <= first_slot_from(s, i) <= s.len(),
        first_slot_from(s, i) < s.len() ==> slot_at(s, first_slot_from(s, i)),
    decreases s.len() - i,
{
    if i < s.len() && !slot_at(s, i) {
        lemma_first_slot_bounds(s, i + 1);
    }
}

proof fn lemma_first_real_bounds(s: Seq<char>, i: int)
    requires
        0 <= i <= s.len(),
    ensures
        i <= first_real_from(s, i) <= s.len(),
        first_real_from(s, i) < s.len() ==> real_at(s, first_real_from(s, i)),
    decreases s.len() - i,
{
    if i < s.len() && !real_at(s, i) {
        lemma_first_real_bounds(s, i + 1);
    }
}

proof fn lemma_first_port_bounds(s: Seq<char>, i: int)
    requires
        0 <= i <= s.len(),
    ensures
        i <= first_port_from(s, i) <= s.len(),
        first_port_from(s, i) < s.len() ==> port_at(s, first_port_from(s, i)),
    decreases s.len() - i,
{
    if i < s.len() && !port_at(s, i) {
        lemma_first_port_bounds(s, i + 1);
    }
}

proof fn lemma_digit_run_ge(s: Seq<char>, i: int)
    ensures
        digit_run_end(s, i) >= i,
        i <= s.len() ==> digit_run_end(s, i) <= s.len(),
    decreases s.len() - i,
{
    if 0 <= i < s.len() && is_digit(s[i]) {
        lemma_digit_run_ge(s, i + 1);
    }
}

proof fn lemma_token_run_ge(s: Seq<char>, i: int)
    ensures
        token_run_end(s, i) >= i,
        i <= s.len() ==> token_run_end(s, i) <= s.len(),
    decreases s.len() - i,
{
    if 0 <= i < s.len() && is_token_char(s[i]) {
        lemma_token_run_ge(s, i + 1);
    }
}

proof fn lemma_attr_value_nonempty(s: Seq<char>)
    ensures
        match attr_value(s) {
            Some(v) => v.len() > 0,
            None => true,
        },
{
    let i = first_real_from(s, 0);
    if i < s.len() {
        lemma_first_real_bounds(s, 0);
        assert(is_digit(s[i + 16]));
        lemma_digit_run_ge(s, i + 17);
        assert(digit_run_end(s, i + 16) == digit_run_end(s, i + 17));
    } else {
        let k = first_port_from(s, 0);
        if k < s.len() {
            lemma_first_port_bounds(s, 0);
            assert(is_token_char(s[k + 9]));
            lemma_token_run_ge(s, k + 10);
            assert(token_run_end(s, k + 9) == token_run_end(s, k + 10));
        }
    }
}

/// `line` contributes an entry for `slot`.
pub open spec fn line_yields_slot(line: Seq<char>, slot: Seq<char>) -> bool {
    match line_entry(line) {
        Some(e) => e.0 == slot,
        None => false,
    }
}

proof fn lemma_ports_map_props(lines: Seq<Seq<char>>, slot: Seq<char>)
    ensures
        ports_map_spec(lines).dom().contains(slot) <==> (exists|i: int|
            0 <= i < lines.len() && line_yields_slot(#[trigger] lines[i], slot)),
        ports_map_spec(lines).dom().contains(slot) ==> ports_map_spec(lines)[slot].len() > 0,
    decreases lines.len(),
{
    if lines.len() > 0 {
        let prefix = lines.drop_last();
        lemma_ports_map_props(prefix, slot);
        lemma_entry_value_nonempty(lines.last());
        if ports_map_spec(lines).dom().contains(slot) {
            if line_yields_slot(lines.last(), slot) {
                assert(line_yields_slot(lines[lines.len() - 1], slot));
            } else {
                let i = choose|i: int|
                    0 <= i < prefix.len() && line_yields_slot(#[trigger] prefix[i], slot);
                assert(line_yields_slot(lines[i], slot));
            }
        }
        if exists|i: int| 0 <= i < lines.len() && line_yields_slot(#[trigger] lines[i], slot) {
            let i = choose|i: int|
                0 <= i < lines.len() && line_yields_slot(#[trigger] lines[i], slot);
            if i < lines.len() - 1 {
                assert(line_yields_slot(prefix[i], slot));
            }
            assert(ports_map_spec(lines).dom().contains(slot));
        }
    }
}

/// Companion name resolution is non-empty exactly when some output
/// line yields an entry for the requested slot, and empty otherwise.
pub proof fn lemma_companion_resolution(output: Seq<char>, slot: Seq<char>)
    ensures
        resolve_name(output, slot).len() > 0 <==> (exists|i: int|
            0 <= i < split_lines_spec(output).len() && line_yields_slot(
                #[trigger] split_lines_spec(output)[i],
                slot,
            )),
        resolve_name(output, slot).len() == 0 ==> resolve_name(output, slot)
            == Seq::<char>::empty(),
{
    lemma_ports_map_props(split_lines_spec(output), slot);
}

/// Baud rate at which the local half of the pair is opened.
pub const LOCAL_BAUD_RATE: u32 = 115200;

/// Read timeout in milliseconds set when opening the local half; the
/// bridge only writes, so this is defensive.
pub const PORT_READ_TIMEOUT_MS: u64 = 10;

/// The fixed name under which the local half of the pair is installed.
pub fn local_port_name() -> (r: &'static str)
    ensures
        r@ == "CNCA0"@,
{
    "CNCA0"
}

/// The companion slot whose OS-assigned name is resolved at startup.
pub fn companion_slot_name() -> (r: &'static str)
    ensures
        r@ == "CNCB0"@,
{
    "CNCB0"
}

/// Virtual port provisioning state: where the driver's control
/// executable lives, and the companion port name once resolved.
pub struct PortManager {
    resource_path: Option<String>,
    other_port: Option<String>,
}

impl PortManager {
    /// The configured driver directory.
    pub closed spec fn resource_path_view(&self) -> Option<Seq<char>> {
        match self.resource_path {
            Some(ref p) => Some(p@),
            None => None,
        }
    }

    /// The recorded companion port name.
    pub closed spec fn other_port_view(&self) -> Option<Seq<char>> {
        match self.other_port {
            Some(ref p) => Some(p@),
            None => None,
        }
    }

    /// A fresh provisioner: no driver directory, no resolved name.
    pub fn new() -> (r: Self)
        ensures
            r.resource_path_view() is None,
            r.other_port_view() is None,
    {
        PortManager { resource_path: None, other_port: None }
    }

    /// Record where the driver's control executable lives.
    pub fn set_resource_path(&mut self, resource_path: String)
        ensures
            final(self).resource_path_view() == Some(resource_path@),
            final(self).other_port_view() == old(self).other_port_view(),
    {
        self.resource_path = Some(resource_path);
    }

    /// Resolve the OS-assigned name of `port` from the driver's `list`
    /// output: the value of the last line that yields an entry for the
    /// slot, or empty when no line does.
    pub fn get_ports(&self, output: &str, port: &str) -> (r: String)
        ensures
            r@ == resolve_name(output@, port@),
    {
        let lines = split_lines(output);
        let slot: String = port.to_owned();
        let mut found: Option<String> = None;
        let ghost all = split_lines_spec(output@);
        let mut idx: usize = 0;
        while idx < lines.len()
            invariant
                lines@.map_values(|t: &str| t@) == all,
                idx <= lines.len(),
                slot@ == port@,
                match found {
                    None => !ports_map_spec(all.subrange(0, idx as int)).dom().contains(port@),
                    Some(ref v) => ports_map_spec(all.subrange(0, idx as int)).dom().contains(
                        port@,
                    ) && ports_map_spec(all.subrange(0, idx as int))[port@] == v@,
                },
            decreases lines.len() - idx,
        {
            let ghost prefix = all.subrange(0, idx as int);
            let ghost prefix2 = all.subrange(0, idx as int + 1);
            proof {
                assert(prefix2.drop_last() =~= prefix);
                assert(prefix2.last() == all[idx as int]);
            }
            match parse_line(lines[idx]) {
                Some(e) => {
                    let (key, value) = e;
                    if key == slot {
                        found = Some(value);
                    } else {
                        proof {
                            if found is None {
                                assert(!ports_map_spec(prefix2).dom().contains(port@));
                            }
                        }
                    }
                },
                None => {
                    assert(ports_map_spec(prefix2) == ports_map_spec(prefix));
                },
            }
            idx += 1;
        }
        proof {
            assert(all.subrange(0, lines@.len() as int) =~= all);
        }
        match found {
            Some(v) => v,
            None => String::new(),
        }
    }
}

/// The driver invocation that prepares driver installation.
pub open spec fn preinstall_args() -> Seq<Seq<char>> {
    seq!["preinstall"@]
}

/// The driver invocation that clears any stale pairing in slot zero.
pub open spec fn remove_args() -> Seq<Seq<char>> {
    seq!["remove"@, "0"@]
}

/// The driver invocation that installs the port pair in slot zero: the
/// local half under its fixed name, the companion under an OS-assigned
/// COM name.
pub open spec fn install_args() -> Seq<Seq<char>> {
    seq!["install"@, "0"@, "PortName=CNCA0"@, "PortName=COM#"@]
}

/// The driver invocation that enables overrun emulation on the
/// companion half.
pub open spec fn change_overrun_args() -> Seq<Seq<char>> {
    seq!["change"@, "CNCB0"@, "EmuOverrun=yes"@]
}

/// The driver invocation that enables baud-rate emulation on the local
/// half.
pub open spec fn change_baud_args() -> Seq<Seq<char>> {
    seq!["change"@, "CNCA0"@, "EmuBR=yes"@]
}

/// The driver invocations run at startup, in order: nothing when the
/// local port is already enumerated; otherwise prepare, clear the
/// slot, install the pair, and apply the two emulation flags.
pub open spec fn provision_plan(local_port_present: bool) -> Seq<Seq<Seq<char>>> {
    if local_port_present {
        Seq::empty()
    } else {
        seq![
            preinstall_args(),
            remove_args(),
            install_args(),
            change_overrun_args(),
            change_baud_args(),
        ]
    }
}

/// The view of one built argument list.
pub open spec fn args_view(v: Vec<String>) -> Seq<Seq<char>> {
    v@.map_values(|t: String| t@)
}

/// The view of a built command plan.
pub open spec fn plan_view(v: Seq<Vec<String>>) -> Seq<Seq<Seq<char>>> {
    v.map_values(|c: Vec<String>| args_view(c))
}

fn push_arg(v: &mut Vec<String>, arg: &str)
    ensures
        args_view(*final(v)) == args_view(*old(v)).push(arg@),
{
    v.push(arg.to_owned());
    assert(args_view(*v) =~= args_view(*old(v)).push(arg@));
}

impl PortManager {
    /// Arguments of the pairing-install invocation.
    pub fn install_ports(&self) -> (r: Vec<String>)
        ensures
            args_view(r) == install_args(),
    {
        let mut v: Vec<String> = Vec::new();
        push_arg(&mut v, "install");
        push_arg(&mut v, "0");
        push_arg(&mut v, "PortName=CNCA0");
        push_arg(&mut v, "PortName=COM#");
        assert(args_view(v) =~= install_args());
        v
    }

    /// Arguments of the slot-clearing invocation.
    pub fn remove_ports(&self) -> (r: Vec<String>)
        ensures
            args_view(r) == remove_args(),
    {
        let mut v: Vec<String> = Vec::new();
        push_arg(&mut v, "remove");
        push_arg(&mut v, "0");
        assert(args_view(v) =~= remove_args());
        v
    }

    /// Arguments of the best-effort preparation invocation.
    pub fn preinstall(&self) -> (r: Vec<String>)
        ensures
            args_view(r) == preinstall_args(),
    {
        let mut v: Vec<String> = Vec::new();
        push_arg(&mut v, "preinstall");
        assert(args_view(v) =~= preinstall_args());
        v
    }

    /// Arguments of the two configuration invocations applied after an
    /// install: overrun emulation on the companion half, then
    /// baud-rate emulation on the local half.
    pub fn after_install(&self) -> (r: Vec<Vec<String>>)
        ensures
            plan_view(r@) == seq![change_overrun_args(), change_baud_args()],
    {
        let mut first: Vec<String> = Vec::new();
        push_arg(&mut first, "change");
        push_arg(&mut first, "CNCB0");
        push_arg(&mut first, "EmuOverrun=yes");
        assert(args_view(first) =~= change_overrun_args());
        let mut second: Vec<String> = Vec::new();
        push_arg(&mut second, "change");
        push_arg(&mut second, "CNCA0");
        push_arg(&mut second, "EmuBR=yes");
        assert(args_view(second) =~= change_baud_args());
        let mut r: Vec<Vec<String>> = Vec::new();
        r.push(first);
        r.push(second);
        assert(plan_view(r@) =~= seq![change_overrun_args(), change_baud_args()]);
        r
    }

    /// The whole startup command plan, given whether the local port is
    /// already enumerated by the OS.
    pub fn init_commands(&self, local_port_present: bool) -> (r: Vec<Vec<String>>)
        ensures
            plan_view(r@) == provision_plan(local_port_present),
    {
        let mut r: Vec<Vec<String>> = Vec::new();
        if !local_port_present {
            r.push(self.preinstall());
            r.push(self.remove_ports());
            r.push(self.install_ports());
            let mut changes = self.after_install();
            let ghost ch = changes@;
            r.append(&mut changes);
            proof {
                assert(plan_view(ch).len() == 2);
                assert(ch.len() == 2);
                assert(args_view(ch[0]) == plan_view(ch)[0]);
                assert(args_view(ch[1]) == plan_view(ch)[1]);
            }
        }
        assert(plan_view(r@) =~= provision_plan(local_port_present));
        r
    }

    /// Probe result over the OS's enumerated serial port names: the
    /// first whose name mentions the local half of the pair, if any.
    pub fn check_ports(&self, names: &Vec<String>) -> (r: Option<usize>)
        ensures
            match r {
                Some(i) => i < names@.len() && contains_pat(names@[i as int]@, "CNCA0"@)
                    && (forall|j: int|
                    0 <= j < i ==> !contains_pat(#[trigger] names@[j]@, "CNCA0"@)),
                None => forall|j: int|
                    0 <= j < names@.len() ==> !contains_pat(#[trigger] names@[j]@, "CNCA0"@),
            },
    {
        let mut i: usize = 0;
        while i < names.len()
            invariant
                i <= names@.len(),
                forall|j: int| 0 <= j < i ==> !contains_pat(#[trigger] names@[j]@, "CNCA0"@),
            decreases names@.len() - i,
        {
            if crate::text::contains_sub(names[i].as_str(), "CNCA0") {
                return Some(i);
            }
            i += 1;
        }
        None
    }
}

} // verus!
