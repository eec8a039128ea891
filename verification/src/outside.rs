use vstd::prelude::*;

use crate::ast::{nws, AstNode, AstS};
use crate::registry::SqlStatement;
use crate::registry::{stw, StmtS};

verus! {

broadcast use vstd::std_specs::vec::group_vec_axioms, vstd::seq::group_seq_axioms;

#[verifier::external_type_specification]
#[verifier::external_body]
#[verifier::reject_recursive_types(K)]
#[verifier::reject_recursive_types(V)]
#[verifier::reject_recursive_types(S)]
pub struct ExDashMap<K, V, S>(dashmap::DashMap<K, V, S>);

/// What the template cache holds: parsed templates by full statement id.
pub uninterp spec fn cache_contents(m: dashmap::DashMap<String, Vec<AstNode>>) -> Map<
    Seq<char>,
    Seq<AstS>,
>;

/// What the statement store holds: statement variants by full id.
pub uninterp spec fn store_contents(m: dashmap::DashMap<String, Vec<SqlStatement>>) -> Map<
    Seq<char>,
    Seq<StmtS>,
>;

/// An empty template-cache model.
pub open spec fn no_templates() -> Map<Seq<char>, Seq<AstS>> {
    Map::empty()
}

/// An empty statement-store model.
pub open spec fn no_statements() -> Map<Seq<char>, Seq<StmtS>> {
    Map::empty()
}

/// Relies on dashmap's DashMap::new: makes an empty map.
#[verifier::external_body]
pub fn cache_new() -> (r: dashmap::DashMap<String, Vec<AstNode>>)
    ensures
        cache_contents(r) == no_templates(),
{
    dashmap::DashMap::new()
}

/// Relies on dashmap's DashMap::get: returns the value under the key, if
/// any; the copy handed out is a structural clone.
#[verifier::external_body]
pub fn cache_get(m: &dashmap::DashMap<String, Vec<AstNode>>, k: &str) -> (r: Option<Vec<AstNode>>)
    ensures
        match r {
            Some(v) => cache_contents(*m).contains_key(k@) && nws(v@) == cache_contents(*m)[k@],
            None => !cache_contents(*m).contains_key(k@),
        },
{
    m.get(k).map(|e| e.value().clone())
}

/// Relies on dashmap's DashMap::insert: stores the value under the key,
/// replacing any previous one.
#[verifier::external_body]
pub fn cache_insert(m: &mut dashmap::DashMap<String, Vec<AstNode>>, k: &str, v: Vec<AstNode>)
    ensures
        cache_contents(*final(m)) == cache_contents(*old(m)).insert(k@, nws(v@)),
{
    m.insert(k.to_owned(), v);
}

/// Relies on dashmap's DashMap::clear: removes every entry.
#[verifier::external_body]
pub fn cache_clear(m: &mut dashmap::DashMap<String, Vec<AstNode>>)
    ensures
        cache_contents(*final(m)) == no_templates(),
{
    m.clear();
}

/// Relies on dashmap's DashMap::new: makes an empty map.
#[verifier::external_body]
pub fn store_new() -> (r: dashmap::DashMap<String, Vec<SqlStatement>>)
    ensures
        store_contents(r) == no_statements(),
{
    dashmap::DashMap::new()
}

/// Relies on dashmap's DashMap::get: returns the statement variants under
/// the full id, if any; the copy handed out is a structural clone.
#[verifier::external_body]
pub fn store_get(m: &dashmap::DashMap<String, Vec<SqlStatement>>, k: &str) -> (r: Option<
    Vec<SqlStatement>,
>)
    ensures
        match r {
            Some(v) => store_contents(*m).contains_key(k@) && stw(v@) == store_contents(*m)[k@],
            None => !store_contents(*m).contains_key(k@),
        },
{
    m.get(k).map(|e| e.value().clone())
}

/// Relies on dashmap's DashMap::insert.
#[verifier::external_body]
pub fn store_insert(m: &mut dashmap::DashMap<String, Vec<SqlStatement>>, k: &str, v: Vec<
    SqlStatement,
>)
    ensures
        store_contents(*final(m)) == store_contents(*old(m)).insert(k@, stw(v@)),
{
    m.insert(k.to_owned(), v);
}

/// Relies on dashmap's DashMap::clear.
#[verifier::external_body]
pub fn store_clear(m: &mut dashmap::DashMap<String, Vec<SqlStatement>>)
    ensures
        store_contents(*final(m)) == no_statements(),
{
    m.clear();
}

} // verus!
