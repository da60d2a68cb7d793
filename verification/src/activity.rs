//! One instantaneous observation of the focused process.

use vstd::prelude::*;
use vstd::string::StringExecFns;

use crate::text::{chars_eq, chars_vec};

verus! {

/// One observation of the foreground process: its process id, the path of
/// its executable, and the title of its focused window.
pub struct Activity {
    pub pid: u32,
    pub exe: String,
    pub title: String,
}

/// The mathematical value of an [`Activity`]: the same three fields with
/// the strings as character sequences.
pub ghost struct SpecActivity {
    pub pid: u32,
    pub exe: Seq<char>,
    pub title: Seq<char>,
}

impl View for Activity {
    type V = SpecActivity;

    open spec fn view(&self) -> SpecActivity {
        SpecActivity { pid: self.pid, exe: self.exe@, title: self.title@ }
    }
}

/// The canonical sentinel recorded in place of whatever is focused while
/// the user has been idle for longer than the idle threshold.
pub open spec fn idle_activity() -> SpecActivity {
    SpecActivity { pid: 0, exe: "idle"@, title: "idle"@ }
}

impl Activity {
    /// The idle sentinel.
    pub fn idle() -> (a: Activity)
        ensures
            a@ == idle_activity(),
    {
        Activity { pid: 0, exe: String::from_str("idle"), title: String::from_str("idle") }
    }

    /// An owned copy with the same value.
    pub fn duplicate(&self) -> (r: Activity)
        ensures
            r@ == self@,
    {
        Activity { pid: self.pid, exe: self.exe.clone(), title: self.title.clone() }
    }

    /// Whether two observations are the same: all three fields equal.
    pub fn same_as(&self, other: &Activity) -> (r: bool)
        ensures
            r == (self@ == other@),
    {
        if self.pid != other.pid {
            return false;
        }
        let se = chars_vec(self.exe.as_str());
        let oe = chars_vec(other.exe.as_str());
        if !chars_eq(&se, &oe) {
            return false;
        }
        let st = chars_vec(self.title.as_str());
        let ot = chars_vec(other.title.as_str());
        chars_eq(&st, &ot)
    }
}

/// The executable path of an activity.
pub fn exe_name(activity: &Activity) -> (r: &str)
    ensures
        r@ == activity@.exe,
{
    activity.exe.as_str()
}

/// The window title of an activity.
pub fn title(activity: &Activity) -> (r: &str)
    ensures
        r@ == activity@.title,
{
    activity.title.as_str()
}

} // verus!
