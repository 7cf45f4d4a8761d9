//! Cypher queries as plain values (text and named parameters), and their
//! conversion into `neo4rs` queries.
use vstd::prelude::*;

verus! {

/// A query parameter value.
#[derive(Debug, Clone, PartialEq, Eq)]
pub enum CypherParam {
    Text(String),
    Int(i64),
}

/// A Cypher query: its text and its parameters, in the order they were added.
#[derive(Debug, Clone, PartialEq, Eq)]
pub struct CypherQuery {
    pub text: String,
    pub params: Vec<(String, CypherParam)>,
}

impl CypherQuery {
    /// A query with no parameter.
    pub fn new(text: String) -> (q: CypherQuery)
        ensures
            q.text == text,
            q.params@.len() == 0,
    {
        CypherQuery { text, params: Vec::new() }
    }

    /// Adds a text parameter.
    pub fn text_param(self, key: &str, value: String) -> (q: CypherQuery)
        ensures
            q.text == self.text,
            q.params@.len() == self.params@.len() + 1,
            forall|i: int| 0 <= i < self.params@.len() ==> q.params@[i] == self.params@[i],
            q.params@.last().0@ == key@,
            q.params@.last().1 == CypherParam::Text(value),
    {
        let mut q = self;
        q.params.push((String::from_str(key), CypherParam::Text(value)));
        q
    }

    /// Adds an integer parameter.
    pub fn int_param(self, key: &str, value: i64) -> (q: CypherQuery)
        ensures
            q.text == self.text,
            q.params@.len() == self.params@.len() + 1,
            forall|i: int| 0 <= i < self.params@.len() ==> q.params@[i] == self.params@[i],
            q.params@.last().0@ == key@,
            q.params@.last().1 == CypherParam::Int(value),
    {
        let mut q = self;
        q.params.push((String::from_str(key), CypherParam::Int(value)));
        q
    }
}

/// The parameter is named `key` and holds the text `value`.
pub open spec fn text_param_is(p: (String, CypherParam), key: Seq<char>, value: Seq<char>) -> bool {
    &&& p.0@ == key
    &&& p.1 matches CypherParam::Text(s) && s@ == value
}

/// The parameter is named `key` and holds the integer `value`.
pub open spec fn int_param_is(p: (String, CypherParam), key: Seq<char>, value: i64) -> bool {
    p.0@ == key && p.1 == CypherParam::Int(value)
}

#[verifier::external_type_specification]
#[verifier::external_body]
pub struct ExNeo4jQuery(neo4rs::Query);

/// The text of a `neo4rs::Query` (its private `query` field).
pub uninterp spec fn neo4j_query_text(q: neo4rs::Query) -> Seq<char>;

/// The text-valued parameters of a `neo4rs::Query` (the entries of its
/// private `params` map that hold a string), by name.
pub uninterp spec fn neo4j_text_params(q: neo4rs::Query) -> Map<Seq<char>, Seq<char>>;

/// The integer-valued parameters of a `neo4rs::Query` (the entries of its
/// private `params` map that hold an integer), by name.
pub uninterp spec fn neo4j_int_params(q: neo4rs::Query) -> Map<Seq<char>, i64>;

/// `neo4rs::query`: a query with the given text and no parameter.
#[verifier::external_body]
fn neo4j_query(text: &str) -> (q: neo4rs::Query)
    ensures
        neo4j_query_text(q) == text@,
        neo4j_text_params(q).dom() == Set::<Seq<char>>::empty(),
        neo4j_int_params(q).dom() == Set::<Seq<char>>::empty(),
{
    neo4rs::query(text)
}

/// `neo4rs::Query::param` with a text value: the text stays, and `key` now
/// maps to `value` (a value it had before, of either kind, is replaced).
#[verifier::external_body]
fn neo4j_text_param(q: neo4rs::Query, key: &str, value: String) -> (r: neo4rs::Query)
    ensures
        neo4j_query_text(r) == neo4j_query_text(q),
        neo4j_text_params(r) == neo4j_text_params(q).insert(key@, value@),
        neo4j_int_params(r) == neo4j_int_params(q).remove(key@),
{
    q.param(key, value)
}

/// `neo4rs::Query::param` with an integer value: the text stays, and `key`
/// now maps to `value` (a value it had before, of either kind, is replaced).
#[verifier::external_body]
fn neo4j_int_param(q: neo4rs::Query, key: &str, value: i64) -> (r: neo4rs::Query)
    ensures
        neo4j_query_text(r) == neo4j_query_text(q),
        neo4j_text_params(r) == neo4j_text_params(q).remove(key@),
        neo4j_int_params(r) == neo4j_int_params(q).insert(key@, value),
{
    q.param(key, value)
}

/// The text parameters after the first `k` parameters are set in order (a
/// later parameter of the same name replaces an earlier one).
pub open spec fn text_params_of(params: Seq<(String, CypherParam)>, k: int) -> Map<Seq<char>, Seq<char>>
    decreases k,
{
    if k <= 0 {
        Map::empty()
    } else {
        let prev = text_params_of(params, k - 1);
        match params[k - 1].1 {
            CypherParam::Text(s) => prev.insert(params[k - 1].0@, s@),
            CypherParam::Int(_) => prev.remove(params[k - 1].0@),
        }
    }
}

/// The integer parameters after the first `k` parameters are set in order.
pub open spec fn int_params_of(params: Seq<(String, CypherParam)>, k: int) -> Map<Seq<char>, i64>
    decreases k,
{
    if k <= 0 {
        Map::empty()
    } else {
        let prev = int_params_of(params, k - 1);
        match params[k - 1].1 {
            CypherParam::Text(_) => prev.remove(params[k - 1].0@),
            CypherParam::Int(n) => prev.insert(params[k - 1].0@, n),
        }
    }
}

/// The `neo4rs` query with this text and these parameters.
pub fn to_neo4j_query(q: &CypherQuery) -> (r: neo4rs::Query)
    ensures
        neo4j_query_text(r) == q.text@,
        neo4j_text_params(r) == text_params_of(q.params@, q.params@.len() as int),
        neo4j_int_params(r) == int_params_of(q.params@, q.params@.len() as int),
{
    let mut r = neo4j_query(q.text.as_str());
    assert(neo4j_text_params(r) =~= text_params_of(q.params@, 0));
    assert(neo4j_int_params(r) =~= int_params_of(q.params@, 0));
    let mut i: usize = 0;
    while i < q.params.len()
        invariant
            i <= q.params@.len(),
            neo4j_query_text(r) == q.text@,
            neo4j_text_params(r) == text_params_of(q.params@, i as int),
            neo4j_int_params(r) == int_params_of(q.params@, i as int),
        decreases q.params.len() - i,
    {
        let (key, value) = &q.params[i];
        r = match value {
            CypherParam::Text(t) => neo4j_text_param(r, key.as_str(), t.clone()),
            CypherParam::Int(n) => neo4j_int_param(r, key.as_str(), *n),
        };
        i = i + 1;
    }
    r
}

} // verus!
