//! The monitored fleet's data model: devices, their checks, and the failure
//! detail a failing check reports, together with the synthetic label an
//! unnamed check is reported under.

use vstd::prelude::*;
use vstd::string::StringExecFns;

verus! {

/// One TCP-port check of a device: the port to probe, and a display name.
/// An empty name means the check is unnamed; it is then reported under a
/// synthetic `port:<port>` label.
#[derive(Debug, Clone)]
pub struct CheckItem {
    pub port: u16,
    pub name: String,
}

impl CheckItem {
    /// Ports are 1..=65535; 0 is not a usable TCP port.
    pub open spec fn wf(&self) -> bool {
        self.port >= 1
    }
}

/// A monitored device. Loaded once at startup and never mutated; `id` is the
/// stable key under which its alert state is kept.
#[derive(Debug, Clone)]
pub struct Device {
    pub id: String,
    pub name: String,
    pub group: String,
    pub priority: String,
    pub ips: Vec<String>,
    pub os: String,
    pub location: String,
    pub checks: Vec<CheckItem>,
}

impl Device {
    /// A device carries at least one address and at least one check, and
    /// every check is well formed.
    pub open spec fn wf(&self) -> bool {
        &&& self.ips@.len() > 0
        &&& self.checks@.len() > 0
        &&& forall|i: int|
            0 <= i < self.checks@.len() ==> (#[trigger] self.checks@[i]).wf()
    }
}

/// The failure detail a failing check reports: the check's label, its
/// port, and the complete list of addresses that failed this round. The
/// core never shortens the address list; shortening it for display is the
/// notifier's business.
#[derive(Debug, Clone)]
pub struct CheckFailure {
    pub check_name: String,
    pub port: u16,
    pub attempted_ips: Vec<String>,
}

/// The character for one decimal digit.
pub open spec fn dec_digit(d: nat) -> char {
    if d == 0 {
        '0'
    } else if d == 1 {
        '1'
    } else if d == 2 {
        '2'
    } else if d == 3 {
        '3'
    } else if d == 4 {
        '4'
    } else if d == 5 {
        '5'
    } else if d == 6 {
        '6'
    } else if d == 7 {
        '7'
    } else if d == 8 {
        '8'
    } else {
        '9'
    }
}

/// The usual decimal rendering of `n`: most significant digit first, no
/// leading zeros (except for `n == 0` itself).
pub open spec fn dec_rep(n: nat) -> Seq<char>
    decreases n,
{
    if n < 10 {
        seq![dec_digit(n)]
    } else {
        dec_rep(n / 10).push(dec_digit(n % 10))
    }
}

/// The label a check is reported under: its own name, or `port:<port>` when
/// the name is empty.
pub open spec fn label_spec(name: Seq<char>, port: u16) -> Seq<char> {
    if name.len() == 0 {
        "port:"@ + dec_rep(port as nat)
    } else {
        name
    }
}

fn digit_str(d: u16) -> (r: &'static str)
    requires
        d < 10,
    ensures
        r@ =~= seq![dec_digit(d as nat)],
{
    proof {
        reveal_strlit("0");
        reveal_strlit("1");
        reveal_strlit("2");
        reveal_strlit("3");
        reveal_strlit("4");
        reveal_strlit("5");
        reveal_strlit("6");
        reveal_strlit("7");
        reveal_strlit("8");
        reveal_strlit("9");
    }
    match d {
        0 => "0",
        1 => "1",
        2 => "2",
        3 => "3",
        4 => "4",
        5 => "5",
        6 => "6",
        7 => "7",
        8 => "8",
        _ => "9",
    }
}

/// Appends the decimal rendering of `n` to `s`.
fn push_dec(s: &mut String, n: u16)
    ensures
        final(s)@ == old(s)@ + dec_rep(n as nat),
    decreases n,
{
    if n >= 10 {
        assert(n / 10 < n);
        push_dec(s, n / 10);
    }
    let d = digit_str(n % 10);
    s.append(d);
    proof {
        if n < 10 {
            assert(s@ =~= old(s)@ + dec_rep(n as nat));
        } else {
            assert(dec_rep(n as nat) == dec_rep(n as nat / 10).push(dec_digit(n as nat % 10)));
            assert(n as nat / 10 == (n / 10) as nat);
            assert(n as nat % 10 == (n % 10) as nat);
            assert(s@ =~= old(s)@ + dec_rep(n as nat));
        }
    }
}

/// The label under which a check's failures are reported this round: the
/// check's own name, or a synthetic `port:<port>` label when it is unnamed.
pub fn check_label(check: &CheckItem) -> (r: String)
    ensures
        r@ == label_spec(check.name@, check.port),
{
    if check.name.as_str().is_empty() {
        let mut s = "port:".to_owned();
        push_dec(&mut s, check.port);
        s
    } else {
        check.name.clone()
    }
}

} // verus!
