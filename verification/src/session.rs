use vstd::prelude::*;
use vstd::string::StringExecFns;

verus! {

/// The character for a single decimal digit.
pub open spec fn digit_char(d: nat) -> char {
    if d == 0 {
        '0'
    } else if d == 1 {
        '1'
    } else if d == 2 {
        '2'
    } else if d == 3 {
        '3'
    } else if d == 4 {
        '4'
    } else if d == 5 {
        '5'
    } else if d == 6 {
        '6'
    } else if d == 7 {
        '7'
    } else if d == 8 {
        '8'
    } else {
        '9'
    }
}

/// The decimal digits of `n`, most significant first, with no leading zeros
/// (a single `'0'` for zero).
pub open spec fn decimal(n: nat) -> Seq<char>
    decreases n,
{
    if n < 10 {
        seq![digit_char(n)]
    } else {
        decimal(n / 10).push(digit_char(n % 10))
    }
}

/// The session cookie value written back on every response: a small JSON
/// object holding the request counter.
pub open spec fn counter_json_seq(n: u64) -> Seq<char> {
    "{\"counter\":"@ + decimal(n as nat) + "}"@
}

/// What parsing a session cookie value yields: the counter when the text is
/// a JSON object whose `counter` field is an unsigned integer, and `None`
/// otherwise. The result depends on the characters alone.
pub uninterp spec fn counter_of_json(s: Seq<char>) -> Option<u64>;

/// Relies on serde_json::from_str together with the accessors
/// serde_json::Value::get and serde_json::Value::as_u64: parsing is a
/// function of the characters alone, and the text `{"counter":N}` with `N`
/// the decimal digits of an unsigned 64-bit integer parses to an object
/// whose `counter` field reads back as exactly `N`.
#[verifier::external_body]
fn parse_counter_json(s: &str) -> (r: Option<u64>)
    ensures
        r == counter_of_json(s@),
        forall|n: u64| s@ == counter_json_seq(n) ==> r == Some(n),
{
    let parsed: Result<serde_json::Value, serde_json::Error> = serde_json::from_str(s);
    match parsed {
        Ok(v) => match v.get("counter") {
            Some(c) => c.as_u64(),
            None => None,
        },
        Err(_) => None,
    }
}

/// The incoming cookie value as a sequence of characters, when one was sent.
pub open spec fn session_view(session: Option<&str>) -> Option<Seq<char>> {
    match session {
        Some(s) => Some(s@),
        None => None,
    }
}

/// The counter a client's cookie carries: zero when no cookie was sent or
/// when its value does not parse.
pub open spec fn prior_counter(session: Option<Seq<char>>) -> u64 {
    match session {
        None => 0,
        Some(s) => match counter_of_json(s) {
            Some(n) => n,
            None => 0,
        },
    }
}

/// Incrementing the counter, saturating at the largest representable value.
pub open spec fn sat_inc(n: u64) -> u64 {
    if n == u64::MAX {
        n
    } else {
        (n + 1) as u64
    }
}

/// What every handler guarantees of the pair (request counter, outgoing
/// cookie) given the incoming cookie: the counter is one more than the
/// count the cookie carried (zero when absent or unreadable), and the
/// outgoing cookie encodes the new counter. In particular a client that
/// sends back the cookie of its `n`th request is answered with `n + 1`.
pub open spec fn counted(count: u64, cookie: Seq<char>, session: Option<Seq<char>>) -> bool {
    &&& count == sat_inc(prior_counter(session))
    &&& cookie == counter_json_seq(count)
    &&& (session is None ==> count == 1)
    &&& forall|n: u64| n < u64::MAX && session == Some(counter_json_seq(n)) ==> count == n + 1
}

/// The single decimal digit `d`, as a string slice.
fn digit_str(d: u64) -> (r: &'static str)
    requires
        d < 10,
    ensures
        r@ == seq![digit_char(d as nat)],
{
    let r: &'static str = if d == 0 {
        "0"
    } else if d == 1 {
        "1"
    } else if d == 2 {
        "2"
    } else if d == 3 {
        "3"
    } else if d == 4 {
        "4"
    } else if d == 5 {
        "5"
    } else if d == 6 {
        "6"
    } else if d == 7 {
        "7"
    } else if d == 8 {
        "8"
    } else {
        "9"
    };
    proof {
        reveal_strlit("0");
        reveal_strlit("1");
        reveal_strlit("2");
        reveal_strlit("3");
        reveal_strlit("4");
        reveal_strlit("5");
        reveal_strlit("6");
        reveal_strlit("7");
        reveal_strlit("8");
        reveal_strlit("9");
        assert(r@ =~= seq![digit_char(d as nat)]);
    }
    r
}

/// Appends the decimal digits of `n` to `out`.
fn push_decimal(out: &mut String, n: u64)
    ensures
        final(out)@ == old(out)@ + decimal(n as nat),
    decreases n,
{
    if n < 10 {
        out.append(digit_str(n));
    } else {
        proof {
            assert(n / 10 < n) by (nonlinear_arith)
                requires
                    n >= 10,
            ;
        }
        push_decimal(out, n / 10);
        out.append(digit_str(n % 10));
        proof {
            assert((old(out)@ + decimal((n / 10) as nat)) + seq![digit_char((n % 10) as nat)]
                =~= old(out)@ + decimal(n as nat));
        }
    }
}

/// Renders the session cookie value for a counter of `count`.
fn encode_counter(count: u64) -> (s: String)
    ensures
        s@ == counter_json_seq(count),
{
    let mut s: String = "{\"counter\":".to_owned();
    push_decimal(&mut s, count);
    s.append("}");
    proof {
        assert(s@ =~= counter_json_seq(count));
    }
    s
}

/// The session counter, kept on the client: reads the counter the incoming
/// cookie carries (absent or unreadable counts as zero), increments it, and
/// returns the new count together with the cookie value to send back.
pub fn get_requests_count(session: Option<&str>) -> (r: (u64, String))
    ensures
        counted(r.0, r.1@, session_view(session)),
{
    let prior: u64 = match session {
        None => 0,
        Some(s) => match parse_counter_json(s) {
            Some(n) => n,
            None => 0,
        },
    };
    let count: u64 = if prior == u64::MAX {
        prior
    } else {
        prior + 1
    };
    let cookie = encode_counter(count);
    (count, cookie)
}

/// One step of a visit: the `i`th request was answered under the counter
/// discipline, with the cookie of request `i - 1` sent back in.
pub open spec fn chain_link(counts: Seq<u64>, cookies: Seq<Seq<char>>, i: int) -> bool {
    counted(counts[i], cookies[i], Some(cookies[i - 1]))
}

/// The session counter over a whole visit: when a client issues a run of
/// requests, sends no cookie on the first and faithfully sends back on each
/// later request the cookie the previous response set, then the `n`th
/// request is counted as `n`.
pub proof fn lemma_session_chain(counts: Seq<u64>, cookies: Seq<Seq<char>>)
    requires
        counts.len() == cookies.len(),
        counts.len() < u64::MAX,
        counts.len() > 0 ==> counted(counts[0], cookies[0], None),
        forall|i: int| 1 <= i < counts.len() ==> #[trigger] chain_link(counts, cookies, i),
    ensures
        forall|n: int| 0 <= n < counts.len() ==> counts[n] == n + 1,
    decreases counts.len(),
{
    if counts.len() == 0 {
    } else if counts.len() == 1 {
        assert(counts[0] == 1);
    } else {
        let m = counts.len() - 1;
        let cs = counts.drop_last();
        let ks = cookies.drop_last();
        assert(forall|i: int| 0 <= i < m ==> cs[i] == counts[i] && #[trigger] ks[i] == cookies[i]);
        assert forall|i: int| 1 <= i < cs.len() implies #[trigger] chain_link(cs, ks, i) by {
            assert(chain_link(counts, cookies, i));
            assert(cs[i] == counts[i] && ks[i] == cookies[i] && ks[i - 1] == cookies[i - 1]);
        }
        lemma_session_chain(cs, ks);
        assert(cs[m - 1] == m);
        assert(counts[m - 1] == m);
        if m - 1 == 0 {
            assert(counted(counts[0], cookies[0], None));
        } else {
            assert(chain_link(counts, cookies, m - 1));
        }
        assert(cookies[m - 1] == counter_json_seq(counts[m - 1]));
        assert(chain_link(counts, cookies, m));
        assert(counted(counts[m], cookies[m], Some(cookies[m - 1])));
        assert((m as u64) < u64::MAX);
        assert(counts[m] == m + 1);
        assert forall|n: int| 0 <= n < counts.len() implies counts[n] == n + 1 by {
            if n < counts.len() - 1 {
                assert(cs[n] == n + 1);
                assert(counts[n] == cs[n]);
            }
        }
    }
}

} // verus!
