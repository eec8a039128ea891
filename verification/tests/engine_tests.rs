use uorm::ast::{Expr, Op};
use uorm::context::Context;
use uorm::convert::{FromValue, ToValue};
use uorm::driver::{PoolOptions, SqliteDriver};
use uorm::registry::{Registry, StatementType};
use uorm::render::{eval_expr, render_template};
use uorm::session::{needs_implicit_transaction, TransactionRegistry};
use uorm::value::Value;

fn obj(entries: Vec<(&str, Value)>) -> Value {
    Value::Object(entries.into_iter().map(|(k, v)| (k.to_string(), v)).collect())
}

#[test]
fn test_eval_expr_logic() {
    let root = obj(vec![("a", Value::I64(10)), ("b", Value::Bool(true))]);
    let ctx = Context::new(&root);

    // a == 10
    let expr = Expr::Binary(
        Op::Eq,
        Box::new(Expr::Var("a".to_string())),
        Box::new(Expr::Literal(Value::I64(10))),
    );
    assert!(eval_expr(&expr, &ctx));

    // a > 5
    let expr = Expr::Binary(
        Op::Gt,
        Box::new(Expr::Var("a".to_string())),
        Box::new(Expr::Literal(Value::I64(5))),
    );
    assert!(eval_expr(&expr, &ctx));

    // b
    let expr = Expr::Var("b".to_string());
    assert!(eval_expr(&expr, &ctx));
}

#[test]
fn test_lookup_simple() {
    let root = obj(vec![("a", Value::I64(1))]);
    let ctx = Context::new(&root);

    assert_eq!(ctx.lookup("a"), Some(&Value::I64(1)));
    assert_eq!(ctx.lookup("b"), None);
}

#[test]
fn test_lookup_nested() {
    let sub = obj(vec![("b", Value::I64(2))]);
    let root = obj(vec![("a", sub)]);
    let ctx = Context::new(&root);

    assert_eq!(ctx.lookup("a.b"), Some(&Value::I64(2)));
    assert_eq!(ctx.lookup("a.c"), None);
    assert_eq!(ctx.lookup("x.y"), None);
}

#[test]
fn test_lookup_locals_shadowing() {
    let root = obj(vec![("a", Value::I64(1))]);
    let two = Value::I64(2);
    let mut ctx = Context::new(&root);

    ctx.push("a", &two);
    assert_eq!(ctx.lookup("a"), Some(&Value::I64(2)));

    ctx.pop();
    assert_eq!(ctx.lookup("a"), Some(&Value::I64(1)));
}

#[test]
fn test_lookup_exact_match_with_dot() {
    let root = obj(vec![("a", Value::I64(1))]);
    let three = Value::I64(3);
    let mut ctx = Context::new(&root);

    ctx.push("a.b", &three);

    // "a.b" should be found in locals as exact match
    assert_eq!(ctx.lookup("a.b"), Some(&Value::I64(3)));
}

#[test]
fn lookup_falls_back_to_other_spelling() {
    let root = obj(vec![("userName", Value::I64(7))]);
    let ctx = Context::new(&root);
    assert_eq!(ctx.lookup("user_name"), Some(&Value::I64(7)));
}

#[test]
fn include_is_resolved_by_current_namespace_first() {
    let mut reg = Registry::new();
    reg.get_ast("a.cols", "id, name");
    reg.get_ast("b.cols", "id, email");
    reg.get_ast("cols", "WRONG");

    let driver = SqliteDriver::new("sqlite::memory:");
    let (sql, _params) = render_template(
        &mut reg,
        "a.main",
        "select <include refid=\"cols\"/> from t",
        &(),
        &driver,
    )
    .unwrap();
    assert!(sql.contains("id, name"));
    assert!(!sql.contains("WRONG"));

    let (sql, _params) = render_template(
        &mut reg,
        "b.main",
        "select <include refid=\"cols\"/> from t",
        &(),
        &driver,
    )
    .unwrap();
    assert!(sql.contains("id, email"));
    assert!(!sql.contains("WRONG"));

    let (sql, _params) = render_template(
        &mut reg,
        "a.main2",
        "select <include refid=\"b.cols\"/> from t",
        &(),
        &driver,
    )
    .unwrap();
    assert!(sql.contains("id, email"));
}

#[test]
fn test_multi_db_selection() {
    let mut reg = Registry::new();
    let unit = r#"<mapper namespace="multi_db">
        <select id="get_date">select 'default' as tag</select>
        <select id="get_date" databaseType="mysql">select 'mysql' as tag</select>
        <select id="get_date" databaseType="postgres">select 'postgres' as tag</select>
    </mapper>"#;
    reg.load_assets(&vec![("multi_db".to_string(), unit.to_string())])
        .expect("Failed to load mapper");

    // a db_type that matches no specific variant falls back to the untyped one
    let stmt = reg
        .find_statement("multi_db.get_date", "sqlite")
        .expect("Should find default mapper");
    assert_eq!(stmt.kind, StatementType::Select);
    assert!(stmt.content.as_ref().unwrap().trim().contains("default"));

    let stmt = reg
        .find_statement("multi_db.get_date", "mysql")
        .expect("Should find mysql mapper");
    assert_eq!(stmt.kind, StatementType::Select);
    assert!(stmt.content.as_ref().unwrap().trim().contains("mysql"));

    let stmt = reg
        .find_statement("multi_db.get_date", "postgres")
        .expect("Should find postgres mapper");
    assert_eq!(stmt.kind, StatementType::Select);
    assert!(stmt.content.as_ref().unwrap().trim().contains("postgres"));
}

#[test]
fn duplicate_definitions_are_rejected() {
    let mut reg = Registry::new();
    let unit = r#"<mapper namespace="n">
        <select id="q">select 1</select>
    </mapper>"#;
    reg.load_assets(&vec![("first".to_string(), unit.to_string())]).unwrap();
    // the same namespace, id and (absent) database type again: the load fails
    let err = reg.load_assets(&vec![("second".to_string(), unit.to_string())]);
    assert!(err.is_err());
    // the original registration is still there, untouched
    let stmt = reg.find_statement("n.q", "sqlite").unwrap();
    assert_eq!(stmt.kind, StatementType::Select);
    assert_eq!(stmt.content.as_deref(), Some("select 1"));
    // clearing empties the registry wholesale
    reg.clear();
    assert!(reg.find_statement("n.q", "sqlite").is_none());
}

#[test]
fn placeholder_injection_stays_in_params() {
    let mut reg = Registry::new();
    let driver = SqliteDriver::new("sqlite::memory:");
    let evil = "'; DROP TABLE t; --";
    let root = obj(vec![("name", Value::Str(evil.to_string()))]);
    let (sql, params) = render_template(
        &mut reg,
        "inj.q",
        "select * from t where name = #{name}",
        &root,
        &driver,
    )
    .unwrap();
    assert_eq!(sql, "select * from t where name = ?");
    assert!(!sql.contains(evil));
    assert_eq!(params.len(), 1);
    assert_eq!(params[0].0, "name");
    assert_eq!(params[0].1, Value::Str(evil.to_string()));
}

#[test]
fn conditional_renders_only_when_true() {
    let driver = SqliteDriver::new("sqlite::memory:");
    let tpl = "select * from t where 1=1<if test=\"active\"> and status=1</if>";

    let mut reg = Registry::new();
    let root = obj(vec![("active", Value::Bool(true))]);
    let (sql, _) = render_template(&mut reg, "c.q1", tpl, &root, &driver).unwrap();
    assert_eq!(sql, "select * from t where 1=1 and status=1");

    let root = obj(vec![("active", Value::Bool(false))]);
    let mut reg2 = Registry::new();
    let (sql, _) = render_template(&mut reg2, "c.q2", tpl, &root, &driver).unwrap();
    assert_eq!(sql, "select * from t where 1=1");

    let root = obj(vec![]);
    let mut reg3 = Registry::new();
    let (sql, _) = render_template(&mut reg3, "c.q3", tpl, &root, &driver).unwrap();
    assert_eq!(sql, "select * from t where 1=1");
}

#[test]
fn foreach_renders_separated_placeholders() {
    let driver = SqliteDriver::new("sqlite::memory:");
    let tpl = r#"<foreach item="id" collection="ids" open="(" separator="," close=")">#{id}</foreach>"#;

    let mut reg = Registry::new();
    let root = obj(vec![(
        "ids",
        Value::List(vec![Value::I64(1), Value::I64(2), Value::I64(3)]),
    )]);
    let (sql, params) = render_template(&mut reg, "f.q1", tpl, &root, &driver).unwrap();
    assert_eq!(sql, "(?,?,?)");
    assert_eq!(params.len(), 3);
    assert_eq!(params[0].1, Value::I64(1));
    assert_eq!(params[1].1, Value::I64(2));
    assert_eq!(params[2].1, Value::I64(3));

    // an empty collection renders nothing at all
    let mut reg2 = Registry::new();
    let root = obj(vec![("ids", Value::List(vec![]))]);
    let (sql, params) = render_template(&mut reg2, "f.q2", tpl, &root, &driver).unwrap();
    assert_eq!(sql, "");
    assert_eq!(params.len(), 0);
}

#[test]
fn whitespace_inline_tag_keeps_spacing() {
    let driver = SqliteDriver::new("sqlite::memory:");
    let mut reg = Registry::new();
    let root = obj(vec![("active", Value::Bool(true))]);
    let tpl = "select 1\n<if test=\"active\">\n  and status=1\n</if>\nfrom t";
    let (sql, _) = render_template(&mut reg, "w.q1", tpl, &root, &driver).unwrap();
    assert!(!sql.contains("\n\n"), "blank line left in: {:?}", sql);
    assert!(sql.contains("and status=1"));
}

#[test]
fn value_round_trips_for_primitives() {
    assert_eq!(i32::from_value(42i32.to_value()).unwrap(), 42);
    assert_eq!(i64::from_value((-7i64).to_value()).unwrap(), -7);
    assert_eq!(u8::from_value(255u8.to_value()).unwrap(), 255);
    assert_eq!(u64::from_value(7u64.to_value()).unwrap(), 7);
    assert_eq!(i128::from_value(i128::MIN.to_value()).unwrap(), i128::MIN);
    assert_eq!(u128::from_value(u128::MAX.to_value()).unwrap(), u128::MAX);
    assert_eq!(bool::from_value(true.to_value()).unwrap(), true);
    assert_eq!(char::from_value('x'.to_value()).unwrap(), 'x');
    assert_eq!(String::from_value("hi".to_string().to_value()).unwrap(), "hi");
    // floating-point data flows through as opaque bit patterns
    let bits = (1.5f64).to_bits();
    match Value::F64(bits) {
        Value::F64(b) => assert_eq!(f64::from_bits(b), 1.5),
        _ => unreachable!(),
    }
}

#[test]
fn narrowing_out_of_range_is_refused() {
    let big = Value::I64(300);
    assert!(u8::from_value(big).is_err());
    let neg = Value::I32(-1);
    assert!(u32::from_value(neg).is_err());
    // widening across tags is fine
    assert_eq!(i64::from_value(Value::I32(5)).unwrap(), 5);
}

#[test]
fn sqlite_driver_builder_parses_urls() {
    let d = SqliteDriver::new("sqlite::memory:").build().unwrap();
    assert_eq!(d.target(), &Some(uorm::driver::SqliteTarget::Memory));

    let d = SqliteDriver::new("sqlite://some/file.db")
        .name("other")
        .options(PoolOptions { max_open_conns: 4, max_idle_conns: 2, max_lifetime: 60, timeout: 5 })
        .build()
        .unwrap();
    assert_eq!(
        d.target(),
        &Some(uorm::driver::SqliteTarget::Path("some/file.db".to_string()))
    );

    assert!(SqliteDriver::new("sqlite:").build().is_err());
    assert!(SqliteDriver::new("   ").build().is_err());
}

#[test]
fn mapper_unit_attributes_are_read() {
    let mut reg = Registry::new();
    let unit = r#"<?xml version="1.0"?>
    <!-- a unit with one keyed insert -->
    <mapper namespace="user">
        <insert id="add" useGeneratedKeys="true" keyColumn="id">
            insert into users(name) values (#{name})
        </insert>
        <select id="find_adults">select * from users where age &gt; #{min}</select>
    </mapper>"#;
    reg.load_assets(&vec![("user".to_string(), unit.to_string())]).unwrap();
    let ins = reg.find_statement("user.add", "sqlite").unwrap();
    assert_eq!(ins.kind, StatementType::Insert);
    assert!(ins.use_generated_keys);
    assert_eq!(ins.key_column.as_deref(), Some("id"));
    let sel = reg.find_statement("user.find_adults", "sqlite").unwrap();
    // the entity in the body unescapes to a plain comparison
    assert_eq!(
        sel.content.as_deref(),
        Some("select * from users where age > #{min}")
    );
    // an id the registry has never seen finds nothing
    assert!(reg.find_statement("user.missing", "sqlite").is_none());
    assert!(reg.find_statement("no_dot", "sqlite").is_none());
}

struct UserDao;

impl UserDao {
    pub fn select_user(
        &self,
        reg: &mut Registry,
        id: i32,
        name: String,
    ) -> Result<(String, Vec<(String, Value)>), uorm::error::DbError> {
        let args = Value::Object(vec![
            ("user_id".to_string(), id.to_value()),
            ("user_name".to_string(), name.to_value()),
        ]);
        let driver = SqliteDriver::new("sqlite::memory:");
        render_template(
            reg,
            "UserDao.select_user",
            "select * from users where id = #{user_id} and name = #{user_name}",
            &args,
            &driver,
        )
    }
}

#[test]
fn test_method_compilation() {
    // This test primarily ensures that the explicit registration pattern
    // builds: a DAO method binds typed arguments to a statement id.
    let _dao = UserDao;
}

#[test]
fn transaction_routes_to_same_connection() {
    let mut tx = TransactionRegistry::new();
    assert_eq!(tx.route("main"), None);
    tx.begin("main", 41).unwrap();
    // an insert and the following generated-key read route to the very
    // same held connection, whatever idle connections a pool may have
    assert_eq!(tx.route("main"), Some(41));
    assert_eq!(tx.route("main"), Some(41));
    // nesting is rejected, not merged
    assert!(tx.begin("main", 99).is_err());
    assert_eq!(tx.route("main"), Some(41));
    // another driver's transactions are independent
    tx.begin("other", 7).unwrap();
    assert_eq!(tx.route("other"), Some(7));
    // resolution hands the held connection back and clears the slot
    assert_eq!(tx.resolve("main"), Some(41));
    assert_eq!(tx.route("main"), None);
    assert_eq!(tx.resolve("main"), None);
    assert_eq!(tx.route("other"), Some(7));
    // a keyed insert outside a transaction wraps itself in one
    assert!(needs_implicit_transaction(false, true));
    assert!(!needs_implicit_transaction(true, true));
    assert!(!needs_implicit_transaction(false, false));
}

#[test]
fn statement_type_reads_tag_names() {
    assert_eq!(StatementType::from_str("select"), Some(StatementType::Select));
    assert_eq!(StatementType::from_str("insert"), Some(StatementType::Insert));
    assert_eq!(StatementType::from_str("update"), Some(StatementType::Update));
    assert_eq!(StatementType::from_str("delete"), Some(StatementType::Delete));
    assert_eq!(StatementType::from_str("sql"), Some(StatementType::Sql));
    assert_eq!(StatementType::from_str("mapper"), None);
}

#[test]
fn bool_conversion_accepts_documented_forms() {
    assert_eq!(bool::from_value(Value::I64(1)).unwrap(), true);
    assert_eq!(bool::from_value(Value::I64(0)).unwrap(), false);
    assert_eq!(bool::from_value(Value::Str("TRUE".to_string())).unwrap(), true);
    assert_eq!(bool::from_value(Value::Str("false".to_string())).unwrap(), false);
    assert!(bool::from_value(Value::I64(2)).is_err());
    assert!(bool::from_value(Value::Str("maybe".to_string())).is_err());
}

#[test]
fn missing_id_fails_the_load() {
    let mut reg = Registry::new();
    let unit = r#"<mapper namespace="bad"><select>select 1</select></mapper>"#;
    assert!(reg.load_assets(&vec![("bad".to_string(), unit.to_string())]).is_err());
}

#[test]
fn empty_body_statement_reports_no_content() {
    let mut reg = Registry::new();
    let unit = r#"<mapper namespace="e"><select id="q"></select></mapper>"#;
    reg.load_assets(&vec![("e".to_string(), unit.to_string())]).unwrap();
    let stmt = reg.find_statement("e.q", "sqlite").unwrap();
    assert!(stmt.content.is_none());
}
