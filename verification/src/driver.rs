use vstd::prelude::*;

use crate::error::DbError;
use crate::parser::{at, at_lit, lemma_at_index};
use crate::render::Driver;
use crate::textutil::{chars_of, string_range};

verus! {

broadcast use vstd::std_specs::vec::group_vec_axioms, vstd::seq::group_seq_axioms;

/// Connection-pool settings a backend may honour.
#[derive(Debug, Clone, Copy, PartialEq, Eq, Structural)]
pub struct PoolOptions {
    pub max_open_conns: u64,
    pub max_idle_conns: u64,
    pub max_lifetime: u64,
    pub timeout: u64,
}

/// Where an embedded database lives: in memory, or in a file.
#[derive(Debug, Clone, PartialEq)]
pub enum SqliteTarget {
    Memory,
    Path(String),
}

/// The model of a target: the file path, or nothing for memory.
pub open spec fn tw(t: SqliteTarget) -> Option<Seq<char>> {
    match t {
        SqliteTarget::Memory => None,
        SqliteTarget::Path(p) => Some(p@),
    }
}

/// What a connection URL denotes: an optional `sqlite://` or `sqlite:`
/// prefix comes off, white space around the URL and around the path is
/// trimmed, an empty path is refused, and `:memory:` names the
/// in-memory database.
pub open spec fn sp_parse_target(url: Seq<char>) -> Option<Option<Seq<char>>> {
    let t = crate::expr::sp_trim(url);
    let path = if at(t, 0, "sqlite://"@) {
        t.skip(9)
    } else if at(t, 0, "sqlite:"@) {
        t.skip(7)
    } else {
        t
    };
    let p = crate::expr::sp_trim(path);
    if p.len() == 0 {
        None
    } else if p == ":memory:"@ {
        Some(None)
    } else {
        Some(Some(p))
    }
}

impl SqliteTarget {
    /// Reads a connection URL.
    pub fn from_str(url: &str) -> (r: Result<SqliteTarget, DbError>)
        ensures
            match r {
                Ok(t) => sp_parse_target(url@) == Some(tw(t)),
                Err(e) => sp_parse_target(url@) is None && e is DbUrlError,
            },
    {
        let cs = chars_of(url);
        let (a, b) = crate::expr::trim_bounds(&cs, 0, cs.len());
        let ghost t = cs@.subrange(a as int, b as int);
        proof {
            assert(cs@.subrange(0, cs@.len() as int) =~= cs@);
            reveal_strlit("sqlite://");
            reveal_strlit("sqlite:");
            reveal_strlit(":memory:");
        }
        let lit_long = vec!['s', 'q', 'l', 'i', 't', 'e', ':', '/', '/'];
        let lit_short = vec!['s', 'q', 'l', 'i', 't', 'e', ':'];
        proof {
            assert(lit_long@ =~= "sqlite://"@);
            assert(lit_short@ =~= "sqlite:"@);
        }
        let pstart: usize = if at_lit(&cs, a, &lit_long) && b - a >= 9 {
            proof {
                assert(at(t, 0, "sqlite://"@)) by {
                    assert(t.subrange(0, 9) =~= cs@.subrange(a as int, a + 9));
                }
                assert(t.skip(9) =~= cs@.subrange(a + 9, b as int));
            }
            a + 9
        } else if at_lit(&cs, a, &lit_short) && b - a >= 7 {
            proof {
                assert(at(t, 0, "sqlite:"@)) by {
                    assert(t.subrange(0, 7) =~= cs@.subrange(a as int, a + 7));
                }
                assert(t.skip(7) =~= cs@.subrange(a + 7, b as int));
                assert(!at(t, 0, "sqlite://"@)) by {
                    if at(t, 0, "sqlite://"@) {
                        lemma_at_index(t, 0, "sqlite://"@);
                        assert(at(cs@, a as int, "sqlite://"@)) by {
                            assert(cs@.subrange(a as int, a + 9) =~= t.subrange(0, 9));
                        }
                    }
                }
            }
            a + 7
        } else {
            proof {
                assert(!at(t, 0, "sqlite://"@)) by {
                    if at(t, 0, "sqlite://"@) {
                        assert(at(cs@, a as int, "sqlite://"@)) by {
                            assert(cs@.subrange(a as int, a + 9) =~= t.subrange(0, 9));
                        }
                    }
                }
                assert(!at(t, 0, "sqlite:"@)) by {
                    if at(t, 0, "sqlite:"@) {
                        assert(at(cs@, a as int, "sqlite:"@)) by {
                            assert(cs@.subrange(a as int, a + 7) =~= t.subrange(0, 7));
                        }
                    }
                }
                assert(t =~= cs@.subrange(a as int, b as int));
            }
            a
        };
        let (pa, pb) = crate::expr::trim_bounds(&cs, pstart, b);
        let ghost p = cs@.subrange(pa as int, pb as int);
        if pb == pa {
            return Err(DbError::DbUrlError(url.to_owned()));
        }
        let lit_mem = vec![':', 'm', 'e', 'm', 'o', 'r', 'y', ':'];
        proof {
            assert(lit_mem@ =~= ":memory:"@);
        }
        if pb - pa == 8 && at_lit(&cs, pa, &lit_mem) {
            proof {
                assert(p =~= ":memory:"@);
            }
            Ok(SqliteTarget::Memory)
        } else {
            proof {
                if p == ":memory:"@ {
                    assert(at(cs@, pa as int, ":memory:"@)) by {
                        assert(cs@.subrange(pa as int, pa + 8) =~= p);
                    }
                }
            }
            Ok(SqliteTarget::Path(string_range(&cs, pa, pb)))
        }
    }
}

/// The embedded-database driver's verified half: its identity, URL
/// parsing, and placeholder syntax.  Opening connections and running
/// statements belong to a backend outside this library.
pub struct SqliteDriver {
    url: String,
    name: String,
    options: Option<PoolOptions>,
    target: Option<SqliteTarget>,
}

impl SqliteDriver {
    pub closed spec fn url_spec(&self) -> Seq<char> {
        self.url@
    }

    pub closed spec fn options_spec(&self) -> Option<PoolOptions> {
        self.options
    }

    pub closed spec fn target_spec(&self) -> Option<SqliteTarget> {
        self.target
    }

    pub closed spec fn driver_name(&self) -> Seq<char> {
        self.name@
    }

    /// A builder over a connection URL, named `default` until renamed.
    pub fn new(url: &str) -> (r: SqliteDriver)
        ensures
            r.url_spec() == url@,
            r.driver_name() == "default"@,
            r.options_spec() is None,
            r.target_spec() is None,
    {
        SqliteDriver {
            url: url.to_owned(),
            name: "default".to_owned(),
            options: None,
            target: None,
        }
    }

    /// Renames the driver.
    pub fn name(self, name: &str) -> (r: SqliteDriver)
        ensures
            r.driver_name() == name@,
            r.url_spec() == self.url_spec(),
            r.options_spec() == self.options_spec(),
            r.target_spec() == self.target_spec(),
    {
        SqliteDriver { name: name.to_owned(), ..self }
    }

    /// Sets the pool options.
    pub fn options(self, options: PoolOptions) -> (r: SqliteDriver)
        ensures
            r.options_spec() == Some(options),
            r.url_spec() == self.url_spec(),
            r.driver_name() == self.driver_name(),
            r.target_spec() == self.target_spec(),
    {
        SqliteDriver { options: Some(options), ..self }
    }

    /// Parses the URL into a target, finishing the builder; a URL with an
    /// empty path is refused.
    pub fn build(self) -> (r: Result<SqliteDriver, DbError>)
        ensures
            match r {
                Ok(d) => {
                    &&& d.url_spec() == self.url_spec()
                    &&& d.driver_name() == self.driver_name()
                    &&& d.options_spec() == self.options_spec()
                    &&& (match d.target_spec() {
                        Some(tgt) => sp_parse_target(self.url_spec()) == Some(tw(tgt)),
                        None => false,
                    })
                },
                Err(e) => sp_parse_target(self.url_spec()) is None && e is DbUrlError,
            },
    {
        match SqliteTarget::from_str(self.url.as_str()) {
            Ok(t) => Ok(SqliteDriver { target: Some(t), ..self }),
            Err(e) => Err(e),
        }
    }

    /// The parsed target, for a backend to open.
    pub fn target(&self) -> (r: &Option<SqliteTarget>)
        ensures
            r == self.target_spec(),
    {
        &self.target
    }

    /// The pool options, for a backend to honour.
    pub fn pool_options(&self) -> (r: &Option<PoolOptions>)
        ensures
            r == self.options_spec(),
    {
        &self.options
    }
}

impl Driver for SqliteDriver {
    closed spec fn name_spec(&self) -> Seq<char> {
        self.name@
    }

    closed spec fn db_type_spec(&self) -> Seq<char> {
        "sqlite"@
    }

    open spec fn placeholder_spec(&self, param_seq: int, param_name: Seq<char>) -> Seq<char> {
        "?"@
    }

    fn name(&self) -> (r: &str) {
        self.name.as_str()
    }

    fn db_type(&self) -> (r: &str) {
        "sqlite"
    }

    fn placeholder(&self, param_seq: usize, param_name: &str) -> (r: String) {
        "?".to_owned()
    }
}

} // verus!
