//! Resolving several hosts at once: which resolver to ask, which queries to
//! run, and what their outcomes add up to.

use crate::record::answers_view;
use crate::record::AnswerView;
use crate::record::QueryAnswer;
use crate::record::QueryType;
use crate::text::chars_of;
use crate::text::texts;
use vstd::prelude::*;
use vstd::string::StringExecFns;

verus! {

/// The resolver that is asked where none is named and none is configured.
pub open spec fn default_server() -> Seq<char> {
    seq!['8', '.', '8', '.', '8', '.', '8']
}

/// The default port of a resolver as it ends a socket address.
pub open spec fn port_suffix() -> Seq<char> {
    seq![':', '5', '3']
}

/// The resolver to ask: the one that is named, else the first that is
/// configured, else the default.
pub open spec fn chosen_server(named: Seq<char>, configured: Seq<Seq<char>>) -> Seq<char> {
    if named.len() > 0 {
        named
    } else if configured.len() > 0 {
        configured[0]
    } else {
        default_server()
    }
}

/// The number of colons in the text.
pub open spec fn colons(text: Seq<char>) -> nat
    decreases text.len(),
{
    if text.len() == 0 {
        0
    } else {
        colons(text.drop_last()) + if text.last() == ':' {
            1nat
        } else {
            0nat
        }
    }
}

/// Whether the text of a resolver starts with a bracket, as an IPv6 address
/// does that is followed by a port.
pub open spec fn bracketed(server: Seq<char>) -> bool {
    server.len() > 0 && server[0] == '['
}

/// Whether the text of a resolver names a port: an address in brackets with
/// something after its closing bracket, or else a text with exactly one
/// colon, which parts the address from the port.
pub open spec fn names_port(server: Seq<char>) -> bool {
    if bracketed(server) {
        server.last() != ']'
    } else {
        colons(server) == 1
    }
}

/// The socket address for the text of a resolver: the text itself where it
/// names a port, else the address with the default port. An address with
/// colons of its own, an IPv6 address, is put in brackets for that.
pub open spec fn with_port(server: Seq<char>) -> Seq<char> {
    if names_port(server) {
        server
    } else if !bracketed(server) && colons(server) >= 2 {
        seq!['['] + server + seq![']'] + port_suffix()
    } else {
        server + port_suffix()
    }
}

/// The number of colons in the text.
fn count_colons(text: &Vec<char>) -> (n: usize)
    ensures
        n == colons(text@),
{
    let len = text.len();
    let mut n: usize = 0;
    let mut i: usize = 0;
    assert(text@.take(0) =~= Seq::<char>::empty());
    while i < len
        invariant
            len == text@.len(),
            i <= len,
            n <= i,
            n == colons(text@.take(i as int)),
        decreases len - i,
    {
        assert(text@.take(i + 1).drop_last() =~= text@.take(i as int));
        if text[i] == ':' {
            n = n + 1;
        }
        i = i + 1;
    }
    assert(text@.take(len as int) =~= text@);
    n
}

/// The socket address of the resolver to ask: the resolver that is named,
/// else the first that is configured, else the default; with the default port
/// where the text names none.
pub fn server_address(named: &String, configured: &Vec<String>) -> (address: String)
    ensures
        address@ == with_port(chosen_server(named@, texts(configured@))),
{
    let server: String = if !named.as_str().is_empty() {
        named.clone()
    } else if configured.len() > 0 {
        configured[0].clone()
    } else {
        proof {
            reveal_strlit("8.8.8.8");
            assert("8.8.8.8"@ =~= default_server());
        }
        "8.8.8.8".to_owned()
    };
    assert(server@ == chosen_server(named@, texts(configured@)));
    proof {
        reveal_strlit(":53");
        assert(":53"@ =~= port_suffix());
    }
    let chars = chars_of(server.as_str());
    let len = chars.len();
    if len > 0 && chars[0] == '[' {
        if chars[len - 1] == ']' {
            server.concat(":53")
        } else {
            server
        }
    } else {
        let n = count_colons(&chars);
        if n == 1 {
            server
        } else if n >= 2 {
            let mut address = String::new();
            address.push('[');
            address.append(server.as_str());
            address.push(']');
            address.append(":53");
            assert(address@ =~= seq!['['] + server@ + seq![']'] + port_suffix());
            address
        } else {
            server.concat(":53")
        }
    }
}

/// The queries for a list of hosts: for each host, in order, one for its
/// `AAAA` records and then one for its `A` records.
pub open spec fn planned(hosts: Seq<Seq<char>>) -> Seq<(Seq<char>, QueryType)> {
    Seq::new(
        2 * hosts.len(),
        |i: int|
            (
                hosts[i / 2],
                if i % 2 == 0 {
                    QueryType::AAAA
                } else {
                    QueryType::A
                },
            ),
    )
}

/// Queries with their host names as sequences of characters.
pub open spec fn queries_view(queries: Seq<(String, QueryType)>) -> Seq<(Seq<char>, QueryType)> {
    queries.map_values(|q: (String, QueryType)| (q.0@, q.1))
}

/// The queries to run for the hosts: two for each.
pub fn plan(hosts: &Vec<String>) -> (queries: Vec<(String, QueryType)>)
    ensures
        queries_view(queries@) == planned(texts(hosts@)),
        queries@.len() == 2 * hosts@.len(),
{
    let mut queries: Vec<(String, QueryType)> = Vec::new();
    let n = hosts.len();
    let mut i: usize = 0;
    while i < n
        invariant
            n == hosts@.len(),
            i <= n,
            queries@.len() == 2 * i,
            forall|k: int|
                0 <= k < 2 * i ==> (#[trigger] queries@[k]).0@ == hosts@[k / 2]@ && queries@[k].1
                    == (if k % 2 == 0 {
                    QueryType::AAAA
                } else {
                    QueryType::A
                }),
        decreases n - i,
    {
        queries.push((hosts[i].clone(), QueryType::AAAA));
        queries.push((hosts[i].clone(), QueryType::A));
        i = i + 1;
    }
    assert(queries_view(queries@) =~= planned(texts(hosts@)));
    queries
}

/// The outcome of two runs of queries one after the other: the first
/// failure, or the answers of both.
pub open spec fn combined<E>(
    first: Result<Seq<AnswerView>, E>,
    second: Result<Seq<AnswerView>, E>,
) -> Result<Seq<AnswerView>, E> {
    match first {
        Err(e) => Err(e),
        Ok(a) => match second {
            Err(e) => Err(e),
            Ok(b) => Ok(a + b),
        },
    }
}

/// What the outcomes of the queries add up to: the answers of all of them,
/// in order, where all succeeded, and the failure of the first that failed
/// otherwise.
pub open spec fn aggregated<E>(outcomes: Seq<Result<Seq<AnswerView>, E>>) -> Result<
    Seq<AnswerView>,
    E,
>
    decreases outcomes.len(),
{
    if outcomes.len() == 0 {
        Ok(Seq::empty())
    } else {
        combined(aggregated(outcomes.drop_last()), outcomes.last())
    }
}

/// The view of an outcome whose failure is of any type.
pub open spec fn outcome_of<E>(outcome: Result<Vec<QueryAnswer>, E>) -> Result<
    Seq<AnswerView>,
    E,
> {
    match outcome {
        Ok(answers) => Ok(answers_view(answers@)),
        Err(e) => Err(e),
    }
}

/// The views of a sequence of outcomes.
pub open spec fn outcomes_of<E>(outcomes: Seq<Result<Vec<QueryAnswer>, E>>) -> Seq<
    Result<Seq<AnswerView>, E>,
> {
    outcomes.map_values(|o: Result<Vec<QueryAnswer>, E>| outcome_of(o))
}

/// Combining outcomes does not depend on how they are grouped.
pub proof fn lemma_combined_associates<E>(
    a: Result<Seq<AnswerView>, E>,
    b: Result<Seq<AnswerView>, E>,
    c: Result<Seq<AnswerView>, E>,
)
    ensures
        combined(combined(a, b), c) == combined(a, combined(b, c)),
{
    if let Ok(x) = a {
        if let Ok(y) = b {
            if let Ok(z) = c {
                assert((x + y) + z =~= x + (y + z));
            }
        }
    }
}

/// If any query failed, the whole is the failure of the first that failed,
/// and no answer is kept; if none failed, the whole is a success.
pub proof fn lemma_first_failure_decides<E>(outcomes: Seq<Result<Seq<AnswerView>, E>>)
    ensures
        match aggregated(outcomes) {
            Err(e) => exists|i: int|
                0 <= i < outcomes.len() && #[trigger] outcomes[i] == Err::<Seq<AnswerView>, E>(e)
                    && forall|j: int| 0 <= j < i ==> (#[trigger] outcomes[j]) is Ok,
            Ok(_) => forall|i: int| 0 <= i < outcomes.len() ==> (#[trigger] outcomes[i]) is Ok,
        },
    decreases outcomes.len(),
{
    if outcomes.len() > 0 {
        let before = outcomes.drop_last();
        lemma_first_failure_decides(before);
        match aggregated(before) {
            Err(e) => {
                let i = choose|i: int|
                    0 <= i < before.len() && #[trigger] before[i] == Err::<Seq<AnswerView>, E>(e)
                        && forall|j: int| 0 <= j < i ==> (#[trigger] before[j]) is Ok;
                assert(outcomes[i] == before[i]);
                assert forall|j: int| 0 <= j < i implies (#[trigger] outcomes[j]) is Ok by {
                    assert(outcomes[j] == before[j]);
                }
            },
            Ok(_) => {
                assert forall|j: int| 0 <= j < before.len() implies (#[trigger] outcomes[j])
                    is Ok by {
                    assert(outcomes[j] == before[j]);
                }
                match outcomes.last() {
                    Err(e) => {
                        let i = outcomes.len() - 1;
                        assert(outcomes[i] == Err::<Seq<AnswerView>, E>(e));
                    },
                    Ok(_) => {},
                }
            },
        }
    }
}

/// Adds the outcomes of the queries up: the answers of all of them, in
/// order, where all succeeded, and the failure of the first that failed
/// otherwise.
pub fn aggregate<E>(outcomes: Vec<Result<Vec<QueryAnswer>, E>>) -> (total: Result<
    Vec<QueryAnswer>,
    E,
>)
    ensures
        outcome_of(total) == aggregated(outcomes_of(outcomes@)),
{
    let ghost all = outcomes_of(outcomes@);
    let mut left = outcomes;
    let mut total: Result<Vec<QueryAnswer>, E> = Ok(Vec::new());
    proof {
        if let Ok(a) = aggregated(all) {
            assert(a + answers_view(Seq::<QueryAnswer>::empty()) =~= a);
        }
    }
    while left.len() > 0
        invariant
            aggregated(all) == combined(aggregated(outcomes_of(left@)), outcome_of(total)),
        decreases left.len(),
    {
        let ghost before = outcomes_of(left@);
        let ghost rest = outcome_of(total);
        let last = left.pop().unwrap();
        proof {
            assert(before.drop_last() =~= outcomes_of(left@));
            assert(before.last() == outcome_of(last));
            lemma_combined_associates(aggregated(outcomes_of(left@)), outcome_of(last), rest);
        }
        total = match last {
            Err(e) => Err(e),
            Ok(mut answers) => match total {
                Err(e) => Err(e),
                Ok(mut more) => {
                    let ghost a = answers@;
                    let ghost b = more@;
                    answers.append(&mut more);
                    assert(answers_view(a + b) =~= answers_view(a) + answers_view(b));
                    Ok(answers)
                },
            },
        };
    }
    proof {
        assert(outcomes_of(left@) =~= Seq::<Result<Seq<AnswerView>, E>>::empty());
        if let Ok(a) = outcome_of(total) {
            assert(Seq::<AnswerView>::empty() + a =~= a);
        }
    }
    total
}

} // verus!
