use vstd::prelude::*;
use vstd::string::*;

use crate::staleness::result_view;
use crate::traffic::view_names;
use crate::window::{zero_padded, zero_padded_decimal};

verus! {

/// An integer in decimal, with a minus sign when negative.
pub open spec fn int_text(n: int) -> Seq<char> {
    if n >= 0 {
        zero_padded(n as nat, 0)
    } else {
        seq!['-'] + zero_padded((-n) as nat, 0)
    }
}

/// The line that reports one out-of-sync repository of a server.
pub open spec fn stale_line(server: Seq<char>, repo: Seq<char>, days: int) -> Seq<char> {
    server + " failed: "@ + repo + ", "@ + int_text(days) + " days ago"@
}

/// The line that reports a server with no out-of-sync repository.
pub open spec fn success_line(server: Seq<char>) -> Seq<char> {
    server + " success: no out of sync mirrors"@
}

/// A server's report: one line per out-of-sync repository, in order, or the
/// success line when there is none.
pub open spec fn server_report_of(server: Seq<char>, results: Seq<(Seq<char>, int)>) -> Seq<
    Seq<char>,
> {
    if results.len() == 0 {
        seq![success_line(server)]
    } else {
        results.map_values(|p: (Seq<char>, int)| stale_line(server, p.0, p.1))
    }
}

fn int_string(n: i64) -> (r: String)
    ensures
        r@ == int_text(n as int),
{
    if n >= 0 {
        zero_padded_decimal(n as u64, 0)
    } else {
        let mut r = String::from_str("-");
        proof {
            reveal_strlit("-");
        }
        let digits = zero_padded_decimal((0i128 - n as i128) as u64, 0);
        r.append(digits.as_str());
        r
    }
}

fn stale_line_string(server: &str, repo: &String, days: i64) -> (r: String)
    ensures
        r@ == stale_line(server@, repo@, days as int),
{
    let mut r = String::from_str(server);
    r.append(" failed: ");
    r.append(repo.as_str());
    r.append(", ");
    let d = int_string(days);
    r.append(d.as_str());
    r.append(" days ago");
    proof {
        reveal_strlit(" failed: ");
        reveal_strlit(", ");
        reveal_strlit(" days ago");
    }
    r
}

/// The report lines of `server` for the out-of-sync repositories `expired`.
pub fn server_report(server: &str, expired: &Vec<(String, i64)>) -> (r: Vec<String>)
    ensures
        view_names(r@) == server_report_of(
            server@,
            expired@.map_values(|p: (String, i64)| result_view(p)),
        ),
{
    let mut r: Vec<String> = Vec::new();
    if expired.len() == 0 {
        let mut line = String::from_str(server);
        line.append(" success: no out of sync mirrors");
        proof {
            reveal_strlit(" success: no out of sync mirrors");
        }
        r.push(line);
        assert(view_names(r@) =~= seq![success_line(server@)]);
        return r;
    }
    let ghost results = expired@.map_values(|p: (String, i64)| result_view(p));
    let mut i: usize = 0;
    while i < expired.len()
        invariant
            i <= expired@.len(),
            results == expired@.map_values(|p: (String, i64)| result_view(p)),
            view_names(r@) =~= results.subrange(0, i as int).map_values(
                |p: (Seq<char>, int)| stale_line(server@, p.0, p.1),
            ),
        decreases expired@.len() - i,
    {
        let ghost prev = r@;
        let line = stale_line_string(server, &expired[i].0, expired[i].1);
        r.push(line);
        assert(view_names(r@) =~= view_names(prev).push(
            stale_line(server@, results[i as int].0, results[i as int].1),
        ));
        assert(results.subrange(0, i + 1).map_values(
            |p: (Seq<char>, int)| stale_line(server@, p.0, p.1),
        ) =~= results.subrange(0, i as int).map_values(
            |p: (Seq<char>, int)| stale_line(server@, p.0, p.1),
        ).push(stale_line(server@, results[i as int].0, results[i as int].1)));
        i = i + 1;
    }
    assert(results.subrange(0, results.len() as int) =~= results);
    r
}

} // verus!
