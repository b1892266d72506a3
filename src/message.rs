//! The text of each kind of anomaly.

use vstd::prelude::*;

verus! {

/// The decimal digit for `d < 10`.
pub open spec fn digit_char(d: nat) -> char {
    if d == 0 {
        '0'
    } else if d == 1 {
        '1'
    } else if d == 2 {
        '2'
    } else if d == 3 {
        '3'
    } else if d == 4 {
        '4'
    } else if d == 5 {
        '5'
    } else if d == 6 {
        '6'
    } else if d == 7 {
        '7'
    } else if d == 8 {
        '8'
    } else {
        '9'
    }
}

/// `n` in decimal, without leading zeros.
pub open spec fn decimal(n: nat) -> Seq<char>
    decreases n,
{
    if n < 10 {
        seq![digit_char(n)]
    } else {
        decimal(n / 10).push(digit_char(n % 10))
    }
}

pub open spec fn hard_link_message(path: Seq<char>, links: nat) -> Seq<char> {
    path + " has more ("@ + decimal(links) + ") than one hard link"@
}

pub open spec fn broken_message(path: Seq<char>, target: Seq<char>) -> Seq<char> {
    path + " is broken, pointing to `"@ + target + "`"@
}

pub open spec fn outside_message(path: Seq<char>, target: Seq<char>) -> Seq<char> {
    path + " is pointing outside, to `"@ + target + "`"@
}

pub open spec fn unknown_message(path: Seq<char>) -> Seq<char> {
    "unknown file type: "@ + path
}

fn digit(d: u64) -> (r: &'static str)
    requires
        d < 10,
    ensures
        r@ == seq![digit_char(d as nat)],
{
    let digits = "0123456789";
    proof {
        reveal_strlit("0123456789");
    }
    let r = digits.substring_char(d as usize, d as usize + 1);
    assert(r@ =~= seq![digit_char(d as nat)]);
    r
}

/// `n` written in decimal.
pub fn decimal_string(n: u64) -> (r: String)
    ensures
        r@ == decimal(n as nat),
    decreases n,
{
    let d = digit(n % 10);
    if n < 10 {
        String::from_str(d)
    } else {
        let mut s = decimal_string(n / 10);
        s.append(d);
        s
    }
}

/// The anomaly for a regular file with `links` hard links.
pub fn hard_link(path: &str, links: u64) -> (r: String)
    ensures
        r@ == hard_link_message(path@, links as nat),
{
    let mut s = String::from_str(path);
    s.append(" has more (");
    let n = decimal_string(links);
    s.append(n.as_str());
    s.append(") than one hard link");
    s
}

/// The anomaly for a symbolic link whose target cannot be resolved.
pub fn broken(path: &str, target: &str) -> (r: String)
    ensures
        r@ == broken_message(path@, target@),
{
    let mut s = String::from_str(path);
    s.append(" is broken, pointing to `");
    s.append(target);
    s.append("`");
    s
}

/// The anomaly for a symbolic link that resolves outside the tree.
pub fn outside(path: &str, target: &str) -> (r: String)
    ensures
        r@ == outside_message(path@, target@),
{
    let mut s = String::from_str(path);
    s.append(" is pointing outside, to `");
    s.append(target);
    s.append("`");
    s
}

/// The anomaly for an entry that is neither a directory, a regular file nor
/// a symbolic link.
pub fn unknown(path: &str) -> (r: String)
    ensures
        r@ == unknown_message(path@),
{
    let mut s = String::from_str("unknown file type: ");
    s.append(path);
    s
}

} // verus!
