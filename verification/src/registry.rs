use vstd::prelude::*;

use crate::ast::{nws, AstNode, AstS};
use crate::error::DbError;
use crate::outside::{
    cache_clear, cache_get, cache_insert, cache_new, store_clear, store_get,
    store_insert, store_new, cache_contents, store_contents,
};
use crate::textutil::str_eq;

verus! {

broadcast use vstd::std_specs::vec::group_vec_axioms, vstd::seq::group_seq_axioms;

/// The execution kind of a statement.
#[derive(Debug, Clone, Copy, PartialEq, Eq, Structural)]
pub enum StatementType {
    Select,
    Insert,
    Update,
    Delete,
    Sql,
}

impl StatementType {
    /// The kind named by a mapper element tag.
    pub fn from_str(s: &str) -> (r: Option<StatementType>)
        ensures
            r == sp_stmt_type(s@),
    {
        proof {
            reveal_strlit("select");
            reveal_strlit("insert");
            reveal_strlit("update");
            reveal_strlit("delete");
            reveal_strlit("sql");
        }
        if str_eq(s, "select") {
            Some(StatementType::Select)
        } else if str_eq(s, "insert") {
            Some(StatementType::Insert)
        } else if str_eq(s, "update") {
            Some(StatementType::Update)
        } else if str_eq(s, "delete") {
            Some(StatementType::Delete)
        } else if str_eq(s, "sql") {
            Some(StatementType::Sql)
        } else {
            None
        }
    }
}

/// The statement kind written by a tag name.
pub open spec fn sp_stmt_type(s: Seq<char>) -> Option<StatementType> {
    if s == "select"@ {
        Some(StatementType::Select)
    } else if s == "insert"@ {
        Some(StatementType::Insert)
    } else if s == "update"@ {
        Some(StatementType::Update)
    } else if s == "delete"@ {
        Some(StatementType::Delete)
    } else if s == "sql"@ {
        Some(StatementType::Sql)
    } else {
        None
    }
}

/// One resolved SQL statement definition.
#[derive(Debug, Clone)]
pub struct SqlStatement {
    /// Statement kind: select, insert, update, delete or raw sql.
    pub kind: StatementType,
    /// Database type this variant is for; `None` is the default variant.
    pub database_type: Option<String>,
    /// The raw SQL template text, inner markup preserved.
    pub content: Option<String>,
    /// Whether the statement returns a database-generated key.
    pub use_generated_keys: bool,
    /// Name of the generated-key column, if declared.
    pub key_column: Option<String>,
}

/// The model of a statement definition.
pub struct StmtS {
    pub kind: StatementType,
    pub database_type: Option<Seq<char>>,
    pub content: Option<Seq<char>>,
    pub use_generated_keys: bool,
    pub key_column: Option<Seq<char>>,
}

/// The model of one statement.
pub open spec fn stw1(s: SqlStatement) -> StmtS {
    StmtS {
        kind: s.kind,
        database_type: match s.database_type {
            Some(x) => Some(x@),
            None => None,
        },
        content: match s.content {
            Some(x) => Some(x@),
            None => None,
        },
        use_generated_keys: s.use_generated_keys,
        key_column: match s.key_column {
            Some(x) => Some(x@),
            None => None,
        },
    }
}

/// The models of a sequence of statements, in order.
pub open spec fn stw(s: Seq<SqlStatement>) -> Seq<StmtS>
    decreases s,
{
    if s.len() == 0 {
        Seq::empty()
    } else {
        seq![stw1(s[0])] + stw(s.drop_first())
    }
}

pub broadcast proof fn lemma_stw_len(s: Seq<SqlStatement>)
    ensures
        #[trigger] stw(s).len() == s.len(),
    decreases s,
{
    if s.len() > 0 {
        lemma_stw_len(s.drop_first());
    }
}

pub broadcast proof fn lemma_stw_index(s: Seq<SqlStatement>, i: int)
    requires
        0 <= i < s.len(),
    ensures
        #[trigger] stw(s)[i] == stw1(s[i]),
    decreases s,
{
    lemma_stw_len(s);
    if i > 0 {
        lemma_stw_index(s.drop_first(), i - 1);
    }
}

pub proof fn lemma_stw_push(s: Seq<SqlStatement>, x: SqlStatement)
    ensures
        stw(s.push(x)) == stw(s).push(stw1(x)),
{
    broadcast use lemma_stw_len, lemma_stw_index;

    assert(stw(s.push(x)) =~= stw(s).push(stw1(x))) by {
        lemma_stw_len(s.push(x));
        assert forall|i: int| 0 <= i < s.len() + 1 implies stw(s.push(x))[i] == stw(s).push(
            stw1(x),
        )[i] by {
            lemma_stw_index(s.push(x), i);
            if i < s.len() {
                lemma_stw_index(s, i);
                assert(s.push(x)[i] == s[i]);
            } else {
                assert(s.push(x)[i] == x);
            }
        }
    }
}

/// Position of the last `.` of `s`, if any.
pub open spec fn sp_last_dot(s: Seq<char>) -> Option<int>
    decreases s.len(),
{
    if s.len() == 0 {
        None
    } else if s.last() == '.' {
        Some(s.len() - 1)
    } else {
        sp_last_dot(s.drop_last())
    }
}

pub proof fn lemma_last_dot_bounds(s: Seq<char>)
    ensures
        match sp_last_dot(s) {
            Some(i) => 0 <= i < s.len() && s[i] == '.' && forall|k: int|
                i < k < s.len() ==> s[k] != '.',
            None => forall|k: int| 0 <= k < s.len() ==> s[k] != '.',
        },
    decreases s.len(),
{
    if s.len() > 0 && s.last() != '.' {
        lemma_last_dot_bounds(s.drop_last());
        assert forall|k: int| 0 <= k < s.len() - 1 implies s.drop_last()[k] == s[k] by {}
    }
}

/// Last position of `.` in `v`, scanned from the right.
pub fn last_dot(v: &Vec<char>) -> (r: Option<usize>)
    ensures
        match r {
            Some(i) => sp_last_dot(v@) == Some(i as int) && i < v@.len(),
            None => sp_last_dot(v@) is None,
        },
{
    let n = v.len();
    proof {
        assert(v@.take(n as int) =~= v@);
    }
    let mut b: usize = n;
    while b > 0
        invariant
            0 <= b <= n,
            n == v@.len(),
            sp_last_dot(v@) == sp_last_dot(v@.take(b as int)),
        decreases b,
    {
        proof {
            assert(v@.take(b as int).last() == v@[b - 1]);
            assert(v@.take(b as int).drop_last() =~= v@.take(b - 1));
        }
        if v[b - 1] == '.' {
            proof {
                assert(v@.take(b as int) =~= v@.take(b as int));
            }
            return Some(b - 1);
        }
        b = b - 1;
    }
    proof {
        assert(v@.take(0).len() == 0);
    }
    None
}

/// Which statement `find_statement` yields from a list of variants: the
/// first whose database type equals the caller's; failing that, the last
/// variant that has no database type; failing that, nothing.
pub open spec fn sp_pick(variants: Seq<StmtS>, db: Seq<char>, fallback: Option<StmtS>) -> Option<
    StmtS,
>
    decreases variants.len(),
{
    if variants.len() == 0 {
        fallback
    } else {
        match variants[0].database_type {
            Some(t) => if t == db {
                Some(variants[0])
            } else {
                sp_pick(variants.drop_first(), db, fallback)
            },
            None => sp_pick(variants.drop_first(), db, Some(variants[0])),
        }
    }
}

/// What looking up `full_id` for database type `db` yields from the
/// store: the id splits on its last `.`; an exact database-type match
/// wins, the untyped variant is the fallback.
pub open spec fn sp_find(
    store: Map<Seq<char>, Seq<StmtS>>,
    full_id: Seq<char>,
    db: Seq<char>,
) -> Option<StmtS> {
    match sp_last_dot(full_id) {
        None => None,
        Some(_) => if store.contains_key(full_id) {
            sp_pick(store[full_id], db, None)
        } else {
            None
        },
    }
}

/// The statement registry: statement variants by full id, and the parsed
/// template cache that `include` tags read.
pub struct Registry {
    store: dashmap::DashMap<String, Vec<SqlStatement>>,
    cache: dashmap::DashMap<String, Vec<AstNode>>,
}

impl Registry {
    /// What the registry holds.
    pub closed spec fn store_view(&self) -> Map<Seq<char>, Seq<StmtS>> {
        store_contents(self.store)
    }

    /// What the template cache holds.
    pub closed spec fn cache_view(&self) -> Map<Seq<char>, Seq<AstS>> {
        cache_contents(self.cache)
    }

    /// An empty registry.
    pub fn new() -> (r: Registry)
        ensures
            r.store_view() == Map::<Seq<char>, Seq<StmtS>>::empty(),
            r.cache_view() == Map::<Seq<char>, Seq<AstS>>::empty(),
    {
        Registry { store: store_new(), cache: cache_new() }
    }

    /// Finds the statement registered under `full_id` for database type
    /// `db_type`: the variant whose type matches exactly, else the
    /// untyped default, else nothing; an id without a `.` finds nothing.
    #[verifier::loop_isolation(false)]
    pub fn find_statement(&self, full_id: &str, db_type: &str) -> (r: Option<SqlStatement>)
        ensures
            match r {
                Some(st) => sp_find(self.store_view(), full_id@, db_type@) == Some(stw1(st)),
                None => sp_find(self.store_view(), full_id@, db_type@) is None,
            },
    {
        let cs = crate::textutil::chars_of(full_id);
        match last_dot(&cs) {
            None => None,
            Some(_) => {
                match store_get(&self.store, full_id) {
                    None => None,
                    Some(variants) => {
                        proof {
                            broadcast use lemma_stw_len, lemma_stw_index;

                        }
                        let ghost all = stw(variants@);
                        let n = variants.len();
                        proof {
                            broadcast use lemma_stw_len;

                            assert(all.skip(0) =~= all);
                        }
                        let mut i: usize = 0;
                        let mut fallback: Option<usize> = None;
                        while i < n
                            invariant
                                0 <= i <= n,
                                n == variants@.len(),
                                all == stw(variants@),
                                all.len() == n,
                                match fallback {
                                    Some(j) => j < i && all[j as int].database_type is None
                                        && sp_pick(all, db_type@, None) == sp_pick(
                                        all.skip(i as int),
                                        db_type@,
                                        Some(all[j as int]),
                                    ),
                                    None => sp_pick(all, db_type@, None) == sp_pick(
                                        all.skip(i as int),
                                        db_type@,
                                        None,
                                    ),
                                },
                            decreases n - i,
                        {
                            proof {
                                broadcast use lemma_stw_len, lemma_stw_index;

                                assert(all.skip(i as int)[0] == all[i as int]);
                                assert(all.skip(i as int).drop_first() =~= all.skip(i + 1));
                            }
                            match &variants[i].database_type {
                                Some(t) => {
                                    if str_eq(t.as_str(), db_type) {
                                        proof {
                                            broadcast use lemma_stw_len, lemma_stw_index;

                                            assert(all[i as int] == stw1(variants@[i as int]));
                                            assert(all.skip(i as int).len() == n - i);
                                            assert(all.skip(i as int)[0] == all[i as int]);
                                            assert(all[i as int].database_type == Some(t@));
                                            assert(sp_pick(all, db_type@, None) == Some(
                                                all[i as int],
                                            ));
                                        }
                                        return Some(variants[i].clone_exec());
                                    }
                                },
                                None => {
                                    fallback = Some(i);
                                },
                            }
                            i = i + 1;
                        }
                        proof {
                            assert(all.skip(n as int).len() == 0);
                        }
                        match fallback {
                            Some(j) => Some(variants[j].clone_exec()),
                            None => None,
                        }
                    },
                }
            },
        }
    }

    /// Empties the registry and the template cache.
    pub fn clear(&mut self)
        ensures
            final(self).store_view() == Map::<Seq<char>, Seq<StmtS>>::empty(),
            final(self).cache_view() == Map::<Seq<char>, Seq<AstS>>::empty(),
    {
        store_clear(&mut self.store);
        cache_clear(&mut self.cache);
    }

    /// The parsed template under `full_id`, parsing and caching `content`
    /// when absent.
    pub fn get_ast(&mut self, full_id: &str, content: &str) -> (r: Vec<AstNode>)
        ensures
            ({
                let before = old(self).cache_view();
                if before.contains_key(full_id@) {
                    nws(r@) == before[full_id@] && final(self).cache_view() == before
                } else {
                    nws(r@) == crate::parser::sp_parse_template(content@)
                        && final(self).cache_view() == before.insert(full_id@, nws(r@))
                }
            }),
            final(self).store_view() == old(self).store_view(),
    {
        match cache_get(&self.cache, full_id) {
            Some(ast) => ast,
            None => {
                let ast = crate::parser::parse_template(content);
                let copy = crate::ast::clone_nodes(&ast);
                cache_insert(&mut self.cache, full_id, copy);
                ast
            },
        }
    }

    /// A read of the cache alone.
    pub fn cached_ast(&self, full_id: &str) -> (r: Option<Vec<AstNode>>)
        ensures
            match r {
                Some(v) => self.cache_view().contains_key(full_id@) && nws(v@)
                    == self.cache_view()[full_id@],
                None => !self.cache_view().contains_key(full_id@),
            },
    {
        cache_get(&self.cache, full_id)
    }
}

impl SqlStatement {
    /// A structural copy with the same model.
    pub fn clone_exec(&self) -> (r: SqlStatement)
        ensures
            stw1(r) == stw1(*self),
    {
        SqlStatement {
            kind: self.kind,
            database_type: match &self.database_type {
                Some(x) => Some(x.clone()),
                None => None,
            },
            content: match &self.content {
                Some(x) => Some(x.clone()),
                None => None,
            },
            use_generated_keys: self.use_generated_keys,
            key_column: match &self.key_column {
                Some(x) => Some(x.clone()),
                None => None,
            },
        }
    }
}


/// The statement a parsed element registers.
pub open spec fn sp_stmt_of(it: crate::xml::ItemS) -> StmtS {
    StmtS {
        kind: it.kind,
        database_type: it.database_type,
        content: it.content,
        use_generated_keys: it.use_generated_keys,
        key_column: it.key_column,
    }
}

/// A variant for this database type is already registered.
pub open spec fn sp_has_db(variants: Seq<StmtS>, db: Option<Seq<char>>) -> bool {
    exists|j: int| 0 <= j < variants.len() && (#[trigger] variants[j]).database_type == db
}

/// Registering the elements of one unit, one at a time: each statement's
/// template joins the cache under its full id unless already cached; a
/// second variant with the same namespace, id and database type stops the
/// load there, leaving the store as it stood before that element.
/// Registering a single element: its template joins the cache under its
/// full id unless already cached; a duplicate database-type variant
/// refuses the element, leaving the store as it stood.
pub open spec fn sp_load_step(
    store: Map<Seq<char>, Seq<StmtS>>,
    cache: Map<Seq<char>, Seq<crate::ast::AstS>>,
    ns: Seq<char>,
    it: crate::xml::ItemS,
) -> (bool, Map<Seq<char>, Seq<StmtS>>, Map<Seq<char>, Seq<crate::ast::AstS>>) {
    let full = ns + seq!['.'] + it.id;
    let cache2 = match it.content {
        Some(c) => if cache.contains_key(full) {
            cache
        } else {
            cache.insert(full, crate::parser::sp_parse_template(c))
        },
        None => cache,
    };
    let existing = if store.contains_key(full) {
        store[full]
    } else {
        Seq::empty()
    };
    if sp_has_db(existing, it.database_type) {
        (false, store, cache2)
    } else {
        (true, store.insert(full, existing.push(sp_stmt_of(it))), cache2)
    }
}

pub open spec fn sp_load_items(
    store: Map<Seq<char>, Seq<StmtS>>,
    cache: Map<Seq<char>, Seq<crate::ast::AstS>>,
    ns: Seq<char>,
    items: Seq<crate::xml::ItemS>,
) -> (bool, Map<Seq<char>, Seq<StmtS>>, Map<Seq<char>, Seq<crate::ast::AstS>>)
    decreases items.len(),
{
    if items.len() == 0 {
        (true, store, cache)
    } else {
        let (ok, s2, c2) = sp_load_step(store, cache, ns, items[0]);
        if !ok {
            (false, s2, c2)
        } else {
            sp_load_items(s2, c2, ns, items.drop_first())
        }
    }
}

/// Loading one mapper unit: parse it, then register its elements.  A
/// parse failure registers nothing.
pub open spec fn sp_load_unit(
    store: Map<Seq<char>, Seq<StmtS>>,
    cache: Map<Seq<char>, Seq<crate::ast::AstS>>,
    xml: Seq<char>,
) -> (bool, Map<Seq<char>, Seq<StmtS>>, Map<Seq<char>, Seq<crate::ast::AstS>>) {
    match crate::xml::sp_parse_mapper(xml) {
        Err(_) => (false, store, cache),
        Ok((ns, items)) => sp_load_items(store, cache, ns, items),
    }
}

/// Loading several units in order; a failure stops the load there.
pub open spec fn sp_load_all(
    store: Map<Seq<char>, Seq<StmtS>>,
    cache: Map<Seq<char>, Seq<crate::ast::AstS>>,
    assets: Seq<(String, String)>,
) -> (bool, Map<Seq<char>, Seq<StmtS>>, Map<Seq<char>, Seq<crate::ast::AstS>>)
    decreases assets.len(),
{
    if assets.len() == 0 {
        (true, store, cache)
    } else {
        let (ok, s2, c2) = sp_load_unit(store, cache, assets[0].1@);
        if !ok {
            (false, s2, c2)
        } else {
            sp_load_all(s2, c2, assets.drop_first())
        }
    }
}

impl Registry {
    /// Registers every statement of one mapper unit, and pre-parses each
    /// statement's template into the cache under its full id.  A
    /// duplicate — a second definition with the same namespace, id and
    /// database type — fails the load at that element.
    #[verifier::loop_isolation(false)]
    #[verifier::rlimit(100)]
    #[verifier::spinoff_prover]
    pub fn register_unit(&mut self, xml: &str) -> (r: Result<(), DbError>)
        ensures
            ({
                let (ok, s2, c2) = sp_load_unit(
                    old(self).store_view(),
                    old(self).cache_view(),
                    xml@,
                );
                &&& final(self).store_view() == s2
                &&& final(self).cache_view() == c2
                &&& (ok <==> r is Ok)
                &&& (r matches Err(e) ==> e is MapperLoadError)
            }),
    {
        let (ns, items) = match crate::xml::parse_mapper(xml) {
            Err(e) => {
                return Err(e);
            },
            Ok(p) => p,
        };
        let ghost orig_store = self.store_view();
        let ghost orig_cache = self.cache_view();
        let ghost all = crate::xml::iw(items@);
        let ghost goal = sp_load_items(orig_store, orig_cache, ns@, all);
        proof {
            broadcast use crate::xml::lemma_iw_len, crate::xml::lemma_iw_index;

            assert(all.skip(0) =~= all);
        }
        let mut rest = items;
        let n = rest.len();
        let mut i: usize = 0;
        while i < n
            invariant
                0 <= i <= n,
                rest@.len() == n - i,
                crate::xml::iw(rest@) =~= all.skip(i as int),
                goal == sp_load_items(self.store_view(), self.cache_view(), ns@, all.skip(i as int)),
            decreases n - i,
        {
            proof {
                broadcast use crate::xml::lemma_iw_len, crate::xml::lemma_iw_index;

                assert(all.skip(i as int)[0] == crate::xml::iw1(rest@[0]));
                assert(crate::xml::iw(rest@).drop_first() =~= crate::xml::iw(rest@.drop_first()));
            }
            let it = rest.remove(0);
            let ghost s_before = self.store_view();
            let ghost c_before = self.cache_view();
            let ghost itm = crate::xml::iw1(it);
            match self.register_one(ns.as_str(), it) {
                Ok(u) => u,
                Err(e) => {
                    return Err(e);
                },
            }
            proof {
                broadcast use crate::xml::lemma_iw_len, crate::xml::lemma_iw_index;

                assert(itm == all.skip(i as int)[0]);
                assert(sp_load_step(s_before, c_before, ns@, itm) == (
                    true,
                    self.store_view(),
                    self.cache_view(),
                ));
                assert(crate::xml::iw(rest@) =~= all.skip(i + 1));
            }
            i = i + 1;
        }
        proof {
            assert(all.skip(n as int).len() == 0);
        }
        Ok(())
    }

    /// Registers one statement element under a namespace.
    #[verifier::loop_isolation(false)]
    #[verifier::rlimit(100)]
    #[verifier::spinoff_prover]
    fn register_one(&mut self, ns: &str, it: crate::xml::ParsedItem) -> (r: Result<(), DbError>)
        ensures
            ({
                let (ok, s2, c2) = sp_load_step(
                    old(self).store_view(),
                    old(self).cache_view(),
                    ns@,
                    crate::xml::iw1(it),
                );
                &&& final(self).store_view() == s2
                &&& final(self).cache_view() == c2
                &&& (ok <==> r is Ok)
                &&& (r matches Err(e) ==> e is MapperLoadError)
            }),
    {
        proof {
            reveal_strlit(".");
            assert("."@ =~= seq!['.']);
        }
        let full = ns.to_owned().concat(".").concat(it.id.as_str());
        match &it.content {
            Some(c) => {
                let _warm = self.get_ast(full.as_str(), c.as_str());
            },
            None => {},
        }
        let variants = match store_get(&self.store, full.as_str()) {
            Some(vs) => vs,
            None => Vec::new(),
        };
        let ghost evs = stw(variants@);
        proof {
            broadcast use lemma_stw_len, lemma_stw_index;

            if !self.store_view().contains_key(full@) {
                assert(evs =~= Seq::<StmtS>::empty());
            }
        }
        // reject a duplicate variant for the same database type
        let m = variants.len();
        let mut j: usize = 0;
        let mut dup: bool = false;
        while j < m
            invariant
                0 <= j <= m,
                m == variants@.len(),
                evs == stw(variants@),
                evs.len() == m,
                dup ==> sp_has_db(evs, crate::xml::iw1(it).database_type),
                !dup ==> forall|q: int|
                    0 <= q < j ==> (#[trigger] evs[q]).database_type != crate::xml::iw1(
                        it,
                    ).database_type,
            decreases m - j,
        {
            proof {
                broadcast use lemma_stw_len, lemma_stw_index;

            }
            let same = match (&variants[j].database_type, &it.database_type) {
                (None, None) => true,
                (Some(a), Some(b)) => crate::textutil::str_eq(a.as_str(), b.as_str()),
                _ => false,
            };
            if same {
                dup = true;
                proof {
                    assert(evs[j as int].database_type == crate::xml::iw1(it).database_type);
                }
                j = m;
            } else {
                j = j + 1;
            }
        }
        if dup {
            return Err(
                DbError::MapperLoadError(
                    "a statement with this namespace, id and database type is already registered".to_owned(),
                ),
            );
        }
        let stmt = SqlStatement {
            kind: it.kind,
            database_type: it.database_type,
            content: it.content,
            use_generated_keys: it.use_generated_keys,
            key_column: it.key_column,
        };
        let mut newvs = variants;
        proof {
            lemma_stw_push(newvs@, stmt);
        }
        newvs.push(stmt);
        store_insert(&mut self.store, full.as_str(), newvs);
        Ok(())
    }

    /// Loads a list of mapper units, each a (source name, unit text)
    /// pair; the first failing unit stops the load, leaving everything
    /// the earlier units registered.
    #[verifier::loop_isolation(false)]
    pub fn load_assets(&mut self, assets: &Vec<(String, String)>) -> (r: Result<(), DbError>)
        ensures
            ({
                let (ok, s2, c2) = sp_load_all(
                    old(self).store_view(),
                    old(self).cache_view(),
                    assets@,
                );
                &&& final(self).store_view() == s2
                &&& final(self).cache_view() == c2
                &&& (ok <==> r is Ok)
                &&& (r matches Err(e) ==> e is MapperLoadError)
            }),
    {
        let ghost goal = sp_load_all(self.store_view(), self.cache_view(), assets@);
        proof {
            assert(assets@.skip(0) =~= assets@);
        }
        let n = assets.len();
        let mut i: usize = 0;
        while i < n
            invariant
                0 <= i <= n,
                n == assets@.len(),
                goal == sp_load_all(self.store_view(), self.cache_view(), assets@.skip(i as int)),
            decreases n - i,
        {
            proof {
                assert(assets@.skip(i as int)[0] == assets@[i as int]);
                assert(assets@.skip(i as int).drop_first() =~= assets@.skip(i + 1));
            }
            match self.register_unit(assets[i].1.as_str()) {
                Ok(u) => u,
                Err(e) => {
                    return Err(e);
                },
            }
            i = i + 1;
        }
        proof {
            assert(assets@.skip(n as int).len() == 0);
        }
        Ok(())
    }
}

} // verus!
