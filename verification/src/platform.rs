//! Decisions on what the operating system reports.
use vstd::prelude::*;

use crate::text::{contains, occurs, replace, replaced, same, trim_str, trimmed};

verus! {

/// Whether a Windows machine runs on battery, by its power status.
pub open spec fn windows_power(answered: bool, battery_flag: u8, ac_line: u8) -> Option<bool> {
    if !answered || battery_flag == 128 {
        None
    } else if ac_line == 0 {
        Some(true)
    } else if ac_line == 1 {
        Some(false)
    } else {
        None
    }
}

/// A machine without a battery never runs on one; one with a battery does exactly
/// where the line is off.
pub proof fn lemma_windows_power(answered: bool, battery_flag: u8, ac_line: u8)
    ensures
        windows_power(answered, battery_flag, ac_line) == Some(true) <==> answered && battery_flag
            != 128 && ac_line == 0,
        windows_power(answered, battery_flag, ac_line) == Some(false) <==> answered && battery_flag
            != 128 && ac_line == 1,
{
}

/// Whether a Windows machine runs on battery, by its power status: unknown
/// where there is no battery (flag 128) or no answer.
pub fn on_battery_windows(answered: bool, battery_flag: u8, ac_line: u8) -> (r: Option<bool>)
    ensures
        r == windows_power(answered, battery_flag, ac_line),
{
    if !answered || battery_flag == 128 {
        None
    } else if ac_line == 0 {
        Some(true)
    } else if ac_line == 1 {
        Some(false)
    } else {
        None
    }
}

/// Whether a Windows machine has a battery: flag 128 means none, 255 unknown.
pub fn has_battery_windows(answered: bool, battery_flag: u8) -> (r: bool)
    ensures
        r == (answered && battery_flag != 128 && battery_flag != 255),
{
    answered && battery_flag != 128 && battery_flag != 255
}

/// A power supply of a Linux machine.
pub struct PowerSupply {
    /// What it is: "Battery", "Mains" or other.
    pub kind: String,
    /// For mains, "1" while it is connected.
    pub online: String,
}

/// One of the supplies is a battery.
pub open spec fn any_battery(s: Seq<PowerSupply>) -> bool {
    exists|i: int| 0 <= i < s.len() && trimmed((#[trigger] s[i]).kind@) == "Battery"@
}

/// Whether mains is connected, by the last such supply.
pub open spec fn mains_online(s: Seq<PowerSupply>) -> Option<bool>
    decreases s.len(),
{
    if s.len() == 0 {
        None
    } else if trimmed(s.last().kind@) == "Mains"@ {
        Some(trimmed(s.last().online@) == "1"@)
    } else {
        mains_online(s.drop_last())
    }
}

/// Whether a Linux machine runs on battery, by its supplies.
pub open spec fn linux_power(s: Seq<PowerSupply>) -> Option<bool> {
    match mains_online(s) {
        Some(online) if any_battery(s) => Some(!online),
        _ => None,
    }
}

/// A machine with a battery and mains runs on the battery exactly where the last
/// mains supply is off; of one that lacks either nothing is said.
pub proof fn lemma_linux_power(s: Seq<PowerSupply>)
    ensures
        ({
            let battery = exists|i: int|
                0 <= i < s.len() && trimmed((#[trigger] s[i]).kind@) == "Battery"@;
            let mains = |i: int| 0 <= i < s.len() && trimmed(s[i].kind@) == "Mains"@;
            match linux_power(s) {
                Some(on_battery) => battery && exists|i: int|
                    #[trigger] mains(i) && (forall|j: int| i < j ==> !#[trigger] mains(j)) && (
                    on_battery <==> trimmed(s[i].online@) != "1"@),
                None => !battery || forall|i: int| !#[trigger] mains(i),
            }
        }),
{
    lemma_last_mains(s);
}

proof fn lemma_last_mains(s: Seq<PowerSupply>)
    ensures
        ({
            let mains = |i: int| 0 <= i < s.len() && trimmed(s[i].kind@) == "Mains"@;
            match mains_online(s) {
                Some(online) => exists|i: int|
                    #[trigger] mains(i) && (forall|j: int| i < j ==> !#[trigger] mains(j)) && (
                    online <==> trimmed(s[i].online@) == "1"@),
                None => forall|i: int| !#[trigger] mains(i),
            }
        }),
    decreases s.len(),
{
    let mains = |i: int| 0 <= i < s.len() && trimmed(s[i].kind@) == "Mains"@;
    if s.len() > 0 {
        let f = s.drop_last();
        lemma_last_mains(f);
        let front = |i: int| 0 <= i < f.len() && trimmed(f[i].kind@) == "Mains"@;
        let n = s.len() - 1;
        if trimmed(s.last().kind@) == "Mains"@ {
            assert(mains(n));
        } else {
            assert forall|i: int| #[trigger] mains(i) <==> front(i) by {
                if 0 <= i < n {
                    assert(f[i] == s[i]);
                }
            }
            if mains_online(s) is Some {
                let i = choose|i: int|
                    #[trigger] front(i) && (forall|j: int| i < j ==> !#[trigger] front(j)) && (
                    mains_online(f)->0 <==> trimmed(f[i].online@) == "1"@);
                assert(mains(i));
                assert forall|j: int| i < j implies !#[trigger] mains(j) by {
                    assert(!front(j));
                }
            } else {
                assert forall|i: int| !#[trigger] mains(i) by {
                    assert(!front(i));
                }
            }
        }
    }
}

/// Whether a Linux machine runs on battery: unknown without a battery or
/// without mains.
pub fn on_battery_linux(supplies: &Vec<PowerSupply>) -> (r: Option<bool>)
    ensures
        r == linux_power(supplies@),
{
    let mut battery = false;
    let mut mains: Option<bool> = None;
    let mut i: usize = 0;
    proof {
        reveal_strlit("Battery");
        reveal_strlit("Mains");
        assert("Battery"@.len() == 7 && "Mains"@.len() == 5);
    }
    while i < supplies.len()
        invariant
            i <= supplies.len(),
            "Battery"@.len() == 7 && "Mains"@.len() == 5,
            battery == any_battery(supplies@.take(i as int)),
            mains == mains_online(supplies@.take(i as int)),
        decreases supplies.len() - i,
    {
        let ghost before = supplies@.take(i as int);
        let ghost after = supplies@.take(i + 1);
        assert(after.drop_last() =~= before);
        assert(after.last() == supplies@[i as int]);
        let kind = trim_str(supplies[i].kind.as_str());
        if same(kind.as_str(), "Battery") {
            battery = true;
            assert(trimmed(after[i as int].kind@) == "Battery"@);
        } else if same(kind.as_str(), "Mains") {
            mains = Some(same(trim_str(supplies[i].online.as_str()).as_str(), "1"));
        }
        proof {
            if any_battery(before) {
                let k = choose|k: int|
                    0 <= k < before.len() && trimmed((#[trigger] before[k]).kind@) == "Battery"@;
                assert(trimmed(after[k].kind@) == "Battery"@);
            }
            if any_battery(after) && trimmed(after[i as int].kind@) != "Battery"@ {
                let k = choose|k: int|
                    0 <= k < after.len() && trimmed((#[trigger] after[k]).kind@) == "Battery"@;
                assert(trimmed(before[k].kind@) == "Battery"@);
            }
        }
        i = i + 1;
    }
    assert(supplies@.take(supplies@.len() as int) =~= supplies@);
    if !battery {
        return None;
    }
    match mains {
        Some(online) => Some(!online),
        None => None,
    }
}

/// Whether a Mac runs on battery, by the output of `pmset`.
pub open spec fn mac_power(out: Seq<char>) -> Option<bool> {
    if !occurs(out, "InternalBattery"@) {
        None
    } else if occurs(out, "'Battery Power'"@) {
        Some(true)
    } else if occurs(out, "'AC Power'"@) {
        Some(false)
    } else {
        None
    }
}

/// A Mac without a battery never runs on one; one with a battery does exactly
/// where it says so.
pub proof fn lemma_mac_power(out: Seq<char>)
    ensures
        mac_power(out) == Some(true) <==> occurs(out, "InternalBattery"@) && occurs(
            out,
            "'Battery Power'"@,
        ),
        mac_power(out) is None <==> !occurs(out, "InternalBattery"@) || (!occurs(
            out,
            "'Battery Power'"@,
        ) && !occurs(out, "'AC Power'"@)),
{
}

/// Whether a Mac runs on battery, by the output of `pmset`.
pub fn on_battery_mac(out: &str) -> (r: Option<bool>)
    ensures
        r == mac_power(out@),
{
    if !contains(out, "InternalBattery") {
        None
    } else if contains(out, "'Battery Power'") {
        Some(true)
    } else if contains(out, "'AC Power'") {
        Some(false)
    } else {
        None
    }
}

/// A URL as the Windows shell takes it: `&` separates commands there, so it is
/// escaped and query strings survive.
pub fn shell_url(url: &str) -> (r: String)
    ensures
        r@ == replaced(url@, "&"@, "^&"@),
{
    proof {
        reveal_strlit("&");
    }
    replace(url, "&", "^&")
}

} // verus!
