//! The server endpoints that a run addresses.
use vstd::prelude::*;
use vstd::string::StringExecFns;

verus! {

/// The decimal digit for `d < 10`.
pub open spec fn digit_char(d: nat) -> char {
    if d == 0 { '0' }
    else if d == 1 { '1' }
    else if d == 2 { '2' }
    else if d == 3 { '3' }
    else if d == 4 { '4' }
    else if d == 5 { '5' }
    else if d == 6 { '6' }
    else if d == 7 { '7' }
    else if d == 8 { '8' }
    else { '9' }
}

/// `n` written in decimal, without leading zeros.
pub open spec fn decimal(n: nat) -> Seq<char>
    decreases n,
{
    if n < 10 {
        seq![digit_char(n)]
    } else {
        decimal(n / 10) + seq![digit_char(n % 10)]
    }
}

/// `POST` target that starts a job with parameters.
pub open spec fn trigger_url_of(base: Seq<char>, view: Seq<char>, job: Seq<char>) -> Seq<char> {
    base + "/view/"@ + view + "/job/"@ + job + "/buildWithParameters"@
}

/// `GET` target describing a queue item.
pub open spec fn queue_url_of(location: Seq<char>) -> Seq<char> {
    location + "/api/json"@
}

/// `GET` target describing one execution of a job.
pub open spec fn execution_url_of(base: Seq<char>, job: Seq<char>, number: nat) -> Seq<char> {
    base + "/job/"@ + job + "/"@ + decimal(number) + "/api/json"@
}

fn digit_str(d: u64) -> (r: &'static str)
    requires
        d < 10,
    ensures
        r@ == seq![digit_char(d as nat)],
{
    if d == 0 {
        proof { reveal_strlit("0"); }
        "0"
    } else if d == 1 {
        proof { reveal_strlit("1"); }
        "1"
    } else if d == 2 {
        proof { reveal_strlit("2"); }
        "2"
    } else if d == 3 {
        proof { reveal_strlit("3"); }
        "3"
    } else if d == 4 {
        proof { reveal_strlit("4"); }
        "4"
    } else if d == 5 {
        proof { reveal_strlit("5"); }
        "5"
    } else if d == 6 {
        proof { reveal_strlit("6"); }
        "6"
    } else if d == 7 {
        proof { reveal_strlit("7"); }
        "7"
    } else if d == 8 {
        proof { reveal_strlit("8"); }
        "8"
    } else {
        proof { reveal_strlit("9"); }
        "9"
    }
}

/// `n` in decimal.
pub fn decimal_string(n: u64) -> (r: String)
    ensures
        r@ == decimal(n as nat),
    decreases n,
{
    if n < 10 {
        String::from_str(digit_str(n))
    } else {
        let mut s = decimal_string(n / 10);
        s.append(digit_str(n % 10));
        s
    }
}

/// The address that starts `job` of `view` on the server at `base`.
pub fn trigger_url(base: &str, view: &str, job: &str) -> (r: String)
    ensures
        r@ == trigger_url_of(base@, view@, job@),
{
    let mut r = String::from_str(base);
    r.append("/view/");
    r.append(view);
    r.append("/job/");
    r.append(job);
    r.append("/buildWithParameters");
    r
}

/// The address that describes the queue item at `location`.
pub fn queue_url(location: &str) -> (r: String)
    ensures
        r@ == queue_url_of(location@),
{
    let mut r = String::from_str(location);
    r.append("/api/json");
    r
}

/// The address that describes execution `number` of `job`.
pub fn execution_url(base: &str, job: &str, number: u64) -> (r: String)
    ensures
        r@ == execution_url_of(base@, job@, number as nat),
{
    let mut r = String::from_str(base);
    r.append("/job/");
    r.append(job);
    r.append("/");
    let digits = decimal_string(number);
    r.append(digits.as_str());
    r.append("/api/json");
    r
}

} // verus!
