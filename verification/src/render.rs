use vstd::prelude::*;

use crate::ast::{ew, node_h, nw, nws, seq_h, AstNode, AstS, Expr, ExprS, Op};
use crate::context::{sp_lookup, Context, CtxS};
use crate::convert::ToValue;
use crate::error::DbError;
use crate::expr::spec_ws_run_rev;
use crate::parser::has_nl;
use crate::registry::{sp_last_dot, Registry};
use crate::textutil::string_range;
use vstd::string::StringExecFns;
use crate::value::{spec_is_truthy, vw, vw_entries, vw_list, Value, ValueS};

verus! {

broadcast use vstd::std_specs::vec::group_vec_axioms, vstd::seq::group_seq_axioms,
    crate::value::lemma_vw_entries_len, crate::value::lemma_vw_entries_index,
    crate::value::lemma_vw_list_len, crate::value::lemma_vw_list_index,
    crate::ast::lemma_nws_len, crate::ast::lemma_nws_index, crate::ast::lemma_seq_h_index,
    crate::context::lemma_lw_len, crate::context::lemma_lw_index;

/// How deep `include` directives may nest in one render pass; a deeper
/// chain, which only a cyclic inclusion produces in practice, aborts the
/// render with a template error instead of running forever.
pub const MAX_INCLUDE_DEPTH: u32 = 64;

/// A database driver as the rendering core sees it: its identity, its
/// database kind, and its placeholder syntax.
pub trait Driver {
    /// The driver's registered name.
    spec fn name_spec(&self) -> Seq<char>;

    /// The database-kind discriminator used for statement-variant
    /// resolution.
    spec fn db_type_spec(&self) -> Seq<char>;

    /// The placeholder text emitted for the parameter with the given
    /// one-based sequence number and name.
    spec fn placeholder_spec(&self, param_seq: int, param_name: Seq<char>) -> Seq<char>;

    fn name(&self) -> (r: &str)
        ensures
            r@ == self.name_spec(),
    ;

    fn db_type(&self) -> (r: &str)
        ensures
            r@ == self.db_type_spec(),
    ;

    fn placeholder(&self, param_seq: usize, param_name: &str) -> (r: String)
        ensures
            r@ == self.placeholder_spec(param_seq as int, param_name@),
    ;
}

/// The placeholder syntax of a driver, as a function value.
pub open spec fn ph_of<D: Driver>(d: &D) -> spec_fn(int, Seq<char>) -> Seq<char> {
    |n: int, s: Seq<char>| d.placeholder_spec(n, s)
}

/// The numeric reading of a value in a comparison, for the tags the
/// evaluator compares numerically.
pub open spec fn sp_num(v: ValueS) -> Option<int> {
    match v {
        ValueS::I16(n) => Some(n as int),
        ValueS::I32(n) => Some(n as int),
        ValueS::I64(n) => Some(n as int),
        ValueS::U8(n) => Some(n as int),
        _ => None,
    }
}

/// The value of an expression operand: a literal is itself, a variable
/// resolves in the scope, a nested operation becomes its boolean.
pub open spec fn sp_resolve_val(e: ExprS, ctx: CtxS) -> ValueS
    decreases e, 1int,
{
    match e {
        ExprS::Literal(v) => v,
        ExprS::Var(name) => sp_lookup(ctx, name),
        ExprS::Binary(_, _, _) => ValueS::Bool(sp_eval(e, ctx)),
    }
}

/// The truth of a test expression in a scope: `and` and `or` are the
/// boolean connectives; a comparison compares numerically when both
/// operands read as numbers, else `==` and `!=` compare structurally and
/// the orderings are false; a bare value is its truthiness.
pub open spec fn sp_eval(e: ExprS, ctx: CtxS) -> bool
    decreases e, 0int,
{
    match e {
        ExprS::Binary(op, l, r) => {
            if op == Op::And {
                sp_eval(*l, ctx) && sp_eval(*r, ctx)
            } else if op == Op::Or {
                sp_eval(*l, ctx) || sp_eval(*r, ctx)
            } else {
                let lv = sp_resolve_val(*l, ctx);
                let rv = sp_resolve_val(*r, ctx);
                match (sp_num(lv), sp_num(rv)) {
                    (Some(a), Some(b)) => match op {
                        Op::Eq => a == b,
                        Op::Ne => a != b,
                        Op::Gt => a > b,
                        Op::Ge => a >= b,
                        Op::Lt => a < b,
                        Op::Le => a <= b,
                        _ => false,
                    },
                    _ => match op {
                        Op::Eq => lv == rv,
                        Op::Ne => lv != rv,
                        _ => false,
                    },
                }
            }
        },
        ExprS::Literal(v) => spec_is_truthy(v),
        ExprS::Var(name) => spec_is_truthy(sp_lookup(ctx, name)),
    }
}

fn num_of(v: &Value) -> (r: Option<i64>)
    ensures
        match r {
            Some(n) => sp_num(vw(*v)) == Some(n as int),
            None => sp_num(vw(*v)) is None,
        },
{
    match v {
        Value::I16(n) => Some(*n as i64),
        Value::I32(n) => Some(*n as i64),
        Value::I64(n) => Some(*n),
        Value::U8(n) => Some(*n as i64),
        _ => None,
    }
}

/// Resolves one operand of a comparison.
pub fn resolve_val(expr: &Expr, ctx: &Context) -> (r: Value)
    ensures
        vw(r) == sp_resolve_val(ew(*expr), ctx.view()),
    decreases expr, 1int,
{
    match expr {
        Expr::Literal(v) => v.clone(),
        Expr::Var(name) => match ctx.lookup(name.as_str()) {
            Some(v) => v.clone(),
            None => Value::Null,
        },
        Expr::Binary(_, _, _) => Value::Bool(eval_expr(expr, ctx)),
    }
}

/// Evaluates a test expression against a scope.
pub fn eval_expr(expr: &Expr, ctx: &Context) -> (b: bool)
    ensures
        b == sp_eval(ew(*expr), ctx.view()),
    decreases expr, 0int,
{
    match expr {
        Expr::Binary(op, l, r) => {
            if matches!(op, Op::And) {
                eval_expr(&**l, ctx) && eval_expr(&**r, ctx)
            } else if matches!(op, Op::Or) {
                eval_expr(&**l, ctx) || eval_expr(&**r, ctx)
            } else {
                let lv = resolve_val(&**l, ctx);
                let rv = resolve_val(&**r, ctx);
                match (num_of(&lv), num_of(&rv)) {
                    (Some(a), Some(b)) => match op {
                        Op::Eq => a == b,
                        Op::Ne => a != b,
                        Op::Gt => a > b,
                        Op::Ge => a >= b,
                        Op::Lt => a < b,
                        Op::Le => a <= b,
                        _ => false,
                    },
                    _ => match op {
                        Op::Eq => lv == rv,
                        Op::Ne => lv != rv,
                        _ => false,
                    },
                }
            }
        },
        Expr::Literal(v) => crate::value::is_truthy(v),
        Expr::Var(name) => {
            match ctx.lookup(name.as_str()) {
                Some(v) => crate::value::is_truthy(v),
                None => false,
            }
        },
    }
}

/// The rendering output under construction: the SQL text and the ordered
/// parameter list.
pub struct RenderBuffer {
    pub sql: String,
    pub params: Vec<(String, Value)>,
}

/// The model of a render buffer.
pub struct BufS {
    pub sql: Seq<char>,
    pub params: Seq<(Seq<char>, ValueS)>,
}

/// The model of a render buffer.
pub open spec fn bufw(b: RenderBuffer) -> BufS {
    BufS { sql: b.sql@, params: vw_entries(b.params@) }
}

/// Appending a text chunk to the SQL: when the chunk begins with a
/// newline and the text so far ends in white space holding a newline,
/// that trailing white space goes first, collapsing tag-made blank lines.
pub open spec fn sp_push_sql(sql: Seq<char>, t: Seq<char>) -> Seq<char> {
    let starts_nl = t.len() > 0 && (t[0] == '\n' || (t.len() >= 2 && t[0] == '\r' && t[1]
        == '\n'));
    let tr = spec_ws_run_rev(sql, sql.len() as int);
    if starts_nl && has_nl(sql.skip(sql.len() - tr)) {
        sql.take(sql.len() - tr) + t
    } else {
        sql + t
    }
}

/// The namespace of a full statement id: what stands before its last dot.
pub open spec fn sp_ns_of(id: Seq<char>) -> Seq<char> {
    match sp_last_dot(id) {
        Some(d) => id.take(d),
        None => Seq::empty(),
    }
}

/// The render of a node list against a scope: `Some` of the finished
/// buffer, or `None` when includes nest deeper than the fuel allows.
/// Text is appended with the blank-line collapse; a variable's value
/// joins the parameter list while only a placeholder joins the SQL; an
/// include renders the cached template of `ns.refid`, or of `refid`
/// alone, inline, and renders nothing when neither is cached; a
/// conditional renders its body only when its test holds; a loop renders
/// its body once per element of a non-empty list value, the element
/// bound to the item name, between its open and close texts and joined
/// by its separator, and renders nothing otherwise.
pub open spec fn sp_render(
    nodes: Seq<AstS>,
    ctx: CtxS,
    cache: Map<Seq<char>, Seq<AstS>>,
    ns: Seq<char>,
    ph: spec_fn(int, Seq<char>) -> Seq<char>,
    buf: BufS,
    fuel: nat,
) -> Option<BufS>
    decreases fuel, seq_h(nodes), 0int, 0int,
    via sp_render_dec
{
    if nodes.len() == 0 {
        Some(buf)
    } else {
        let rest = nodes.drop_first();
        match nodes[0] {
            AstS::Text(t) => sp_render(
                rest,
                ctx,
                cache,
                ns,
                ph,
                BufS { sql: sp_push_sql(buf.sql, t), params: buf.params },
                fuel,
            ),
            AstS::Var(name) => {
                let v = sp_lookup(ctx, name);
                let params2 = buf.params.push((name, v));
                let sql2 = buf.sql + ph(params2.len() as int, name);
                sp_render(rest, ctx, cache, ns, ph, BufS { sql: sql2, params: params2 }, fuel)
            },
            AstS::Include(refid) => {
                let full = ns + seq!['.'] + refid;
                let key = if cache.contains_key(full) {
                    full
                } else {
                    refid
                };
                if cache.contains_key(key) {
                    if fuel == 0 {
                        None
                    } else {
                        match sp_render(
                            cache[key],
                            ctx,
                            cache,
                            sp_ns_of(key),
                            ph,
                            buf,
                            (fuel - 1) as nat,
                        ) {
                            None => None,
                            Some(b2) => sp_render(rest, ctx, cache, ns, ph, b2, fuel),
                        }
                    }
                } else {
                    sp_render(rest, ctx, cache, ns, ph, buf, fuel)
                }
            },
            AstS::If(test, body) => {
                if sp_eval(test, ctx) {
                    match sp_render(body, ctx, cache, ns, ph, buf, fuel) {
                        None => None,
                        Some(b2) => sp_render(rest, ctx, cache, ns, ph, b2, fuel),
                    }
                } else {
                    sp_render(rest, ctx, cache, ns, ph, buf, fuel)
                }
            },
            AstS::Foreach { item, collection, open, separator, close, body } => {
                match sp_lookup(ctx, collection) {
                    ValueS::List(items) => {
                        if items.len() == 0 {
                            sp_render(rest, ctx, cache, ns, ph, buf, fuel)
                        } else {
                            let buf1 = BufS { sql: buf.sql + open, params: buf.params };
                            match sp_render_items(
                                items,
                                true,
                                item,
                                separator,
                                body,
                                ctx,
                                cache,
                                ns,
                                ph,
                                buf1,
                                fuel,
                            ) {
                                None => None,
                                Some(b2) => sp_render(
                                    rest,
                                    ctx,
                                    cache,
                                    ns,
                                    ph,
                                    BufS { sql: b2.sql + close, params: b2.params },
                                    fuel,
                                ),
                            }
                        }
                    },
                    _ => sp_render(rest, ctx, cache, ns, ph, buf, fuel),
                }
            },
        }
    }
}

#[via_fn]
proof fn sp_render_dec(
    nodes: Seq<AstS>,
    ctx: CtxS,
    cache: Map<Seq<char>, Seq<AstS>>,
    ns: Seq<char>,
    ph: spec_fn(int, Seq<char>) -> Seq<char>,
    buf: BufS,
    fuel: nat,
) {
    if nodes.len() > 0 {
        lemma_node_h_pos(nodes[0]);
    }
}

/// Every node has height at least one.
pub proof fn lemma_node_h_pos(n: AstS)
    ensures
        node_h(n) >= 1,
{
}

/// Renders the loop body once per remaining element, the separator
/// before every element but the first.
pub open spec fn sp_render_items(
    items: Seq<ValueS>,
    first: bool,
    item: Seq<char>,
    separator: Seq<char>,
    body: Seq<AstS>,
    ctx: CtxS,
    cache: Map<Seq<char>, Seq<AstS>>,
    ns: Seq<char>,
    ph: spec_fn(int, Seq<char>) -> Seq<char>,
    buf: BufS,
    fuel: nat,
) -> Option<BufS>
    decreases fuel, seq_h(body), items.len(), 1int,
{
    if items.len() == 0 {
        Some(buf)
    } else {
        let buf1 = if first {
            buf
        } else {
            BufS { sql: buf.sql + separator, params: buf.params }
        };
        let ctx2 = CtxS { root: ctx.root, locals: ctx.locals.push((item, items[0])) };
        match sp_render(body, ctx2, cache, ns, ph, buf1, fuel) {
            None => None,
            Some(b2) => sp_render_items(
                items.drop_first(),
                false,
                item,
                separator,
                body,
                ctx,
                cache,
                ns,
                ph,
                b2,
                fuel,
            ),
        }
    }
}


/// Appends a text chunk to the SQL under the blank-line collapse rule.
fn push_sql_exec(sql: &mut String, t: &str)
    ensures
        final(sql)@ == sp_push_sql(old(sql)@, t@),
{
    let tcs = crate::textutil::chars_of(t);
    let starts_nl = tcs.len() > 0 && (tcs[0] == '\n' || (tcs.len() >= 2 && tcs[0] == '\r'
        && tcs[1] == '\n'));
    if starts_nl {
        let scs = crate::textutil::chars_of(sql.as_str());
        let tr = crate::parser::ws_run_rev_exec(&scs);
        let keep = scs.len() - tr;
        proof {
            assert(scs@.subrange(keep as int, scs@.len() as int) =~= scs@.skip(keep as int));
        }
        if crate::parser::has_nl_range(&scs, keep, scs.len()) {
            let mut out = string_range(&scs, 0, keep);
            proof {
                assert(scs@.subrange(0, keep as int) =~= scs@.take(keep as int));
            }
            out.append(t);
            *sql = out;
            return ;
        }
    }
    sql.append(t);
}

/// Renders a node list into the buffer: text with the blank-line
/// collapse, variables as placeholders plus parameters, includes inline
/// from the cache, conditionals and loops by their rules.  Fails only
/// when includes nest beyond `fuel`.
#[verifier::loop_isolation(false)]
#[verifier::rlimit(100)]
#[verifier::spinoff_prover]
pub fn render_nodes<'a, D: Driver>(
    nodes: &Vec<AstNode>,
    ctx: &mut Context<'a>,
    buf: &mut RenderBuffer,
    driver: &D,
    reg: &Registry,
    ns: &str,
    fuel: u32,
) -> (r: Result<(), DbError>)
    ensures
        ({
            let res = sp_render(
                nws(nodes@),
                old(ctx).view(),
                reg.cache_view(),
                ns@,
                ph_of(driver),
                bufw(*old(buf)),
                fuel as nat,
            );
            match res {
                Some(b2) => r is Ok && bufw(*final(buf)) == b2 && final(ctx).view() == old(ctx).view(),
                None => r is Err,
            }
        }),
    decreases fuel, seq_h(nws(nodes@)), 0int,
{
    proof {
        broadcast use crate::ast::lemma_nws_len, crate::ast::lemma_nws_index;

    }
    let ghost full = nws(nodes@);
    let ghost cache = reg.cache_view();
    let ghost ph = ph_of(driver);
    let ghost goal = sp_render(full, old(ctx).view(), cache, ns@, ph, bufw(*old(buf)), fuel as nat);
    proof {
        assert(full.skip(0) =~= full);
    }
    let n = nodes.len();
    let mut i: usize = 0;
    while i < n
        invariant
            0 <= i <= n,
            n == nodes@.len(),
            ctx.view() == old(ctx).view(),
            goal == sp_render(
                full.skip(i as int),
                old(ctx).view(),
                cache,
                ns@,
                ph,
                bufw(*buf),
                fuel as nat,
            ),
        decreases n - i,
    {
        proof {
            broadcast use crate::ast::lemma_nws_len, crate::ast::lemma_nws_index,
                crate::ast::lemma_seq_h_index;

            assert(full.skip(i as int)[0] == full[i as int]);
            assert(full.skip(i as int).drop_first() =~= full.skip(i + 1));
            assert(full[i as int] == nw(nodes@[i as int]));
            lemma_node_h_pos(full[i as int]);
        }
        match &nodes[i] {
            AstNode::Text(t) => {
                push_sql_exec(&mut buf.sql, t.as_str());
            },
            AstNode::Var(name) => {
                let v = match ctx.lookup(name.as_str()) {
                    Some(x) => x.clone(),
                    None => Value::Null,
                };
                let ghost params_before = buf.params@;
                buf.params.push((name.clone(), v));
                proof {
                    crate::value::lemma_vw_entries_push(
                        params_before,
                        (nodes@[i as int]->Var_0, v),
                    );
                }
                let p = driver.placeholder(buf.params.len(), name.as_str());
                buf.sql.append(p.as_str());
            },
            AstNode::Include { refid } => {
                proof {
                    reveal_strlit(".");
                    assert("."@ =~= seq!['.']);
                }
                let full_id = ns.to_owned().concat(".").concat(refid.as_str());
                let hit = match reg.cached_ast(full_id.as_str()) {
                    Some(ast) => Some((ast, full_id)),
                    None => match reg.cached_ast(refid.as_str()) {
                        Some(ast) => Some((ast, refid.clone())),
                        None => None,
                    },
                };
                match hit {
                    Some((ast, key)) => {
                        if fuel == 0 {
                            return Err(
                                DbError::TemplateEngineError(
                                    "include directives nest too deeply".to_owned(),
                                ),
                            );
                        }
                        let kcs = crate::textutil::chars_of(key.as_str());
                        let ns2 = match crate::registry::last_dot(&kcs) {
                            Some(d) => string_range(&kcs, 0, d),
                            None => String::new(),
                        };
                        proof {
                            assert(kcs@.subrange(0, kcs@.len() as int) =~= kcs@);
                        }
                        match render_nodes(&ast, ctx, buf, driver, reg, ns2.as_str(), fuel - 1) {
                            Ok(u) => u,
                            Err(e) => {
                                return Err(e);
                            },
                        }
                    },
                    None => {},
                }
            },
            AstNode::If { test, body } => {
                if eval_expr(test, ctx) {
                    match render_nodes(body, ctx, buf, driver, reg, ns, fuel) {
                        Ok(u) => u,
                        Err(e) => {
                            return Err(e);
                        },
                    }
                }
            },
            AstNode::Foreach { item, collection, open, separator, close, body } => {
                let coll = ctx.lookup(collection.as_str());
                match coll {
                    Some(Value::List(items)) => {
                        if items.len() > 0 {
                            buf.sql.append(open.as_str());
                            let ghost items_model = vw_list(items@);
                            let ghost buf1 = bufw(*buf);
                            proof {
                                broadcast use crate::value::lemma_vw_list_len,
                                    crate::value::lemma_vw_list_index;

                                assert(items_model.skip(0) =~= items_model);
                            }
                            let m = items.len();
                            let mut j: usize = 0;
                            while j < m
                                invariant
                                    0 <= j <= m,
                                    m == items@.len(),
                                    ctx.view() == old(ctx).view(),
                                    sp_render_items(
                                        items_model,
                                        true,
                                        nodes@[i as int]->Foreach_item@,
                                        nodes@[i as int]->Foreach_separator@,
                                        nws(nodes@[i as int]->Foreach_body@),
                                        old(ctx).view(),
                                        cache,
                                        ns@,
                                        ph,
                                        buf1,
                                        fuel as nat,
                                    ) == sp_render_items(
                                        items_model.skip(j as int),
                                        j == 0,
                                        nodes@[i as int]->Foreach_item@,
                                        nodes@[i as int]->Foreach_separator@,
                                        nws(nodes@[i as int]->Foreach_body@),
                                        old(ctx).view(),
                                        cache,
                                        ns@,
                                        ph,
                                        bufw(*buf),
                                        fuel as nat,
                                    ),
                                decreases m - j,
                            {
                                proof {
                                    broadcast use crate::value::lemma_vw_list_len,
                                        crate::value::lemma_vw_list_index;

                                    assert(items_model.skip(j as int)[0] == items_model[j as int]);
                                    assert(items_model.skip(j as int).drop_first()
                                        =~= items_model.skip(j + 1));
                                }
                                if j > 0 {
                                    buf.sql.append(separator.as_str());
                                }
                                ctx.push(item.as_str(), &items[j]);
                                let rr = render_nodes(body, ctx, buf, driver, reg, ns, fuel);
                                match rr {
                                    Ok(u) => u,
                                    Err(e) => {
                                        return Err(e);
                                    },
                                }
                                ctx.pop();
                                proof {
                                    assert(ctx.view().locals =~= old(ctx).view().locals);
                                }
                                j = j + 1;
                            }
                            proof {
                                assert(items_model.skip(m as int).len() == 0);
                            }
                            buf.sql.append(close.as_str());
                        }
                    },
                    _ => {},
                }
            },
        }
        i = i + 1;
    }
    proof {
        assert(full.skip(n as int).len() == 0);
    }
    Ok(())
}


/// Renders a template by name: the cached AST (parsed and cached on
/// first use) renders against the parameters converted into the value
/// model, over an empty local scope, with includes resolved against the
/// template's own namespace.
pub fn render_template<T: ToValue, D: Driver>(
    reg: &mut Registry,
    template_name: &str,
    template_content: &str,
    param: &T,
    driver: &D,
) -> (r: Result<(String, Vec<(String, Value)>), DbError>)
    ensures
        ({
            let ast = if old(reg).cache_view().contains_key(template_name@) {
                old(reg).cache_view()[template_name@]
            } else {
                crate::parser::sp_parse_template(template_content@)
            };
            let cache2 = if old(reg).cache_view().contains_key(template_name@) {
                old(reg).cache_view()
            } else {
                old(reg).cache_view().insert(template_name@, ast)
            };
            let res = sp_render(
                ast,
                (CtxS { root: param.to_value_spec(), locals: Seq::empty() }),
                cache2,
                sp_ns_of(template_name@),
                ph_of(driver),
                (BufS { sql: Seq::empty(), params: Seq::empty() }),
                MAX_INCLUDE_DEPTH as nat,
            );
            &&& final(reg).cache_view() == cache2
            &&& final(reg).store_view() == old(reg).store_view()
            &&& match res {
                Some(b) => (match r {
                    Ok(p) => p.0@ == b.sql && vw_entries(p.1@) == b.params,
                    Err(_) => false,
                }),
                None => r is Err,
            }
        }),
{
    let ast = reg.get_ast(template_name, template_content);
    let value = param.to_value();
    let mut ctx = Context::new(&value);
    let mut buf = RenderBuffer { sql: String::new(), params: Vec::new() };
    proof {
        assert(vw_entries(buf.params@) =~= Seq::<(Seq<char>, ValueS)>::empty());
    }
    let ncs = crate::textutil::chars_of(template_name);
    let ns = match crate::registry::last_dot(&ncs) {
        Some(d) => string_range(&ncs, 0, d),
        None => String::new(),
    };
    match render_nodes(&ast, &mut ctx, &mut buf, driver, reg, ns.as_str(), MAX_INCLUDE_DEPTH) {
        Ok(u) => {
            u;
            Ok((buf.sql, buf.params))
        },
        Err(e) => Err(e),
    }
}

/// Placeholder injection safety: rendering a template made of literal
/// text followed by one variable puts, for every scope — that is, for
/// every bound value — only the driver's placeholder text after the
/// literal in the SQL, while the value itself goes only to the parameter
/// list.
pub proof fn lemma_placeholder_injection(
    q: Seq<char>,
    name: Seq<char>,
    ctx: CtxS,
    cache: Map<Seq<char>, Seq<AstS>>,
    ns: Seq<char>,
    ph: spec_fn(int, Seq<char>) -> Seq<char>,
    fuel: nat,
)
    ensures
        sp_render(
            seq![AstS::Text(q), AstS::Var(name)],
            ctx,
            cache,
            ns,
            ph,
            (BufS { sql: Seq::empty(), params: Seq::empty() }),
            fuel,
        ) == Some(
            BufS {
                sql: sp_push_sql(Seq::empty(), q) + ph(1, name),
                params: seq![(name, sp_lookup(ctx, name))],
            },
        ),
{
    let nodes = seq![AstS::Text(q), AstS::Var(name)];
    let buf0 = BufS { sql: Seq::empty(), params: Seq::empty() };
    let buf1 = BufS { sql: sp_push_sql(Seq::empty(), q), params: Seq::empty() };
    assert(nodes.len() == 2);
    assert(nodes[0] == AstS::Text(q));
    assert(nodes[1] == AstS::Var(name));
    assert(nodes.drop_first() =~= seq![AstS::Var(name)]);
    assert(sp_render(nodes, ctx, cache, ns, ph, buf0, fuel) == sp_render(
        nodes.drop_first(),
        ctx,
        cache,
        ns,
        ph,
        (BufS { sql: sp_push_sql(buf0.sql, q), params: buf0.params }),
        fuel,
    ));
    assert(buf0.params =~= buf1.params);
    let nodes1 = nodes.drop_first();
    assert(nodes1[0] == AstS::Var(name));
    let params2 = buf1.params.push((name, sp_lookup(ctx, name)));
    assert(params2 =~= seq![(name, sp_lookup(ctx, name))]);
    assert(params2.len() == 1);
    let buf2 = BufS { sql: buf1.sql + ph(1, name), params: params2 };
    assert(nodes1.drop_first() =~= Seq::<AstS>::empty());
    assert(sp_render(nodes1.drop_first(), ctx, cache, ns, ph, buf2, fuel) == Some(buf2));
}

} // verus!
