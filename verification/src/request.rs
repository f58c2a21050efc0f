//! Reading the request line: the path is its second whitespace-delimited
//! token. A line with fewer than two tokens is malformed and yields nothing;
//! the connection is then abandoned by the caller.

use vstd::prelude::*;
use crate::routing::{route, spec_route, Route};

verus! {

/// The delimiters between request-line tokens.
pub open spec fn is_ws_char(c: char) -> bool {
    c == ' ' || c == '\t' || c == '\r' || c == '\n'
}

/// `s` with its leading whitespace removed.
pub open spec fn spec_skip_ws(s: Seq<char>) -> Seq<char>
    decreases s.len(),
{
    if s.len() == 0 {
        s
    } else if is_ws_char(s[0]) {
        spec_skip_ws(s.drop_first())
    } else {
        s
    }
}

/// The longest whitespace-free prefix of `s`.
pub open spec fn spec_take_token(s: Seq<char>) -> Seq<char>
    decreases s.len(),
{
    if s.len() == 0 {
        Seq::<char>::empty()
    } else if is_ws_char(s[0]) {
        Seq::<char>::empty()
    } else {
        seq![s[0]] + spec_take_token(s.drop_first())
    }
}

/// The second whitespace-delimited token of `s`, if `s` has two.
pub open spec fn spec_second_token(s: Seq<char>) -> Option<Seq<char>> {
    let s1 = spec_skip_ws(s);
    let t1 = spec_take_token(s1);
    if t1.len() == 0 {
        None
    } else {
        let s2 = spec_skip_ws(s1.skip(t1.len() as int));
        let t2 = spec_take_token(s2);
        if t2.len() == 0 {
            None
        } else {
            Some(t2)
        }
    }
}

/// Skipping whitespace lands on the first non-whitespace position.
proof fn lemma_skip_ws_at(s: Seq<char>, k: int)
    requires
        0 <= k <= s.len(),
        forall|j: int| 0 <= j < k ==> is_ws_char(#[trigger] s[j]),
        k < s.len() ==> !is_ws_char(s[k]),
    ensures
        spec_skip_ws(s) == s.skip(k),
    decreases k,
{
    if k == 0 {
        assert(s.skip(0) =~= s);
    } else {
        let t = s.drop_first();
        assert(forall|j: int| 0 <= j < t.len() ==> t[j] == s[j + 1]);
        lemma_skip_ws_at(t, k - 1);
        assert(t.skip(k - 1) =~= s.skip(k));
    }
}

/// Taking a token stops at the first whitespace position.
proof fn lemma_take_token_at(s: Seq<char>, k: int)
    requires
        0 <= k <= s.len(),
        forall|j: int| 0 <= j < k ==> !is_ws_char(#[trigger] s[j]),
        k < s.len() ==> is_ws_char(s[k]),
    ensures
        spec_take_token(s) == s.take(k),
    decreases k,
{
    if k == 0 {
        assert(s.take(0) =~= Seq::<char>::empty());
    } else {
        let t = s.drop_first();
        assert(forall|j: int| 0 <= j < t.len() ==> t[j] == s[j + 1]);
        lemma_take_token_at(t, k - 1);
        assert(seq![s[0]] + t.take(k - 1) =~= s.take(k));
    }
}

/// Whether `c` delimits request-line tokens.
fn is_ws(c: char) -> (r: bool)
    ensures
        r == is_ws_char(c),
{
    c == ' ' || c == '\t' || c == '\r' || c == '\n'
}

/// Extracts the request path: the second whitespace-delimited token of the
/// request line. Yields `None` where the line has fewer than two tokens.
pub fn parse_request_path(request_line: &str) -> (r: Option<String>)
    ensures
        r.deep_view() == spec_second_token(request_line@),
{
    let ghost s = request_line@;
    let n = request_line.unicode_len();
    let mut i: usize = 0;
    while i < n && is_ws(request_line.get_char(i))
        invariant
            s == request_line@,
            0 <= i <= n,
            n == s.len(),
            forall|j: int| 0 <= j < i ==> is_ws_char(#[trigger] s[j]),
        decreases n - i,
    {
        i = i + 1;
    }
    proof {
        lemma_skip_ws_at(s, i as int);
    }
    let ghost s1 = s.skip(i as int);
    proof {
        assert(forall|j: int| 0 <= j < s1.len() ==> s1[j] == s[j + i]);
    }
    let mut j: usize = i;
    while j < n && !is_ws(request_line.get_char(j))
        invariant
            s == request_line@,
            i <= j <= n,
            n == s.len(),
            forall|k: int| i <= k < j ==> !is_ws_char(#[trigger] s[k]),
        decreases n - j,
    {
        j = j + 1;
    }
    proof {
        lemma_take_token_at(s1, j - i);
        assert(spec_take_token(s1).len() == j - i);
    }
    if j == i {
        return None;
    }
    proof {
        assert(s1.skip(j - i) =~= s.skip(j as int));
    }
    let ghost s1b = s.skip(j as int);
    proof {
        assert(forall|k: int| 0 <= k < s1b.len() ==> s1b[k] == s[k + j]);
    }
    let mut k: usize = j;
    while k < n && is_ws(request_line.get_char(k))
        invariant
            s == request_line@,
            j <= k <= n,
            n == s.len(),
            forall|m: int| j <= m < k ==> is_ws_char(#[trigger] s[m]),
        decreases n - k,
    {
        k = k + 1;
    }
    proof {
        lemma_skip_ws_at(s1b, k - j);
        assert(s1b.skip(k - j) =~= s.skip(k as int));
    }
    let ghost s2 = s.skip(k as int);
    proof {
        assert(forall|m: int| 0 <= m < s2.len() ==> s2[m] == s[m + k]);
    }
    let mut m: usize = k;
    while m < n && !is_ws(request_line.get_char(m))
        invariant
            s == request_line@,
            k <= m <= n,
            n == s.len(),
            forall|q: int| k <= q < m ==> !is_ws_char(#[trigger] s[q]),
        decreases n - m,
    {
        m = m + 1;
    }
    proof {
        lemma_take_token_at(s2, m - k);
        assert(spec_take_token(s2).len() == m - k);
    }
    if m == k {
        return None;
    }
    let token = request_line.substring_char(k, m);
    proof {
        assert(token@ =~= s2.take(m - k));
    }
    Some(String::from_str(token))
}

/// Handles the routing part of one connection: reads the path out of the
/// request line and classifies it. Yields `None` where the request line is
/// malformed.
pub fn route_request_line(request_line: &str) -> (r: Option<Route>)
    ensures
        spec_second_token(request_line@) is None ==> r is None,
        (spec_second_token(request_line@) matches Some(t) ==> r matches Some(rt) && rt@
            == spec_route(t)),
{
    match parse_request_path(request_line) {
        None => None,
        Some(path) => {
            proof {
                assert(spec_second_token(request_line@) matches Some(t) && t == path@);
                assert(path@.len() >= 1);
            }
            Some(route(path.as_str()))
        },
    }
}

} // verus!
