use handlebars::context::Context;
use handlebars::json::{as_string, Json, Object};
use handlebars::path::{parse_path, PathSegment};
use std::collections::VecDeque;

fn s(v: &str) -> Json {
    Json::String(v.to_string())
}

fn person() -> Json {
    let mut addr = Object::new();
    addr.insert("city".to_string(), s("Beijing"));
    addr.insert("country".to_string(), s("China"));
    let mut p = Object::new();
    p.insert("name".to_string(), s("Ning Sun"));
    p.insert("age".to_string(), Json::Number(27));
    p.insert("addr".to_string(), Json::Object(addr));
    p.insert(
        "titles".to_string(),
        Json::Array(vec![s("programmer"), s("cartographier")]),
    );
    Json::Object(p)
}

fn top(ctx: &Context, path: &str) -> String {
    ctx.navigate(".", &VecDeque::new(), path).render()
}

fn same(a: &Json, b: &Json) -> bool {
    match (a, b) {
        (Json::Null, Json::Null) => true,
        (Json::Bool(x), Json::Bool(y)) => x == y,
        (Json::Number(x), Json::Number(y)) => x == y,
        (Json::String(x), Json::String(y)) => x == y,
        (Json::Array(x), Json::Array(y)) => {
            x.len() == y.len() && x.iter().zip(y.iter()).all(|(p, q)| same(p, q))
        }
        (Json::Object(x), Json::Object(y)) => {
            x.len() == y.len()
                && (0..x.len()).all(|i| {
                    x.key_at(i) == y.key_at(i) && same(x.value_at(i), y.value_at(i))
                })
        }
        _ => false,
    }
}

#[test]
fn test_json_render() {
    let raw = "<p>Hello world</p>\n<p thing=\"hello\"</p>";
    let thing = Json::String(raw.to_string());

    assert_eq!(raw, thing.render());
}

#[test]
fn test_render() {
    let v = "hello";
    let ctx = Context::wraps(&s(v));
    assert_eq!(
        ctx.navigate(".", &VecDeque::new(), "this").render(),
        v.to_string()
    );
}

#[test]
fn test_navigation() {
    let ctx = Context::wraps(&person());
    assert_eq!(top(&ctx, "./name/../addr/country"), "China".to_string());
    assert_eq!(top(&ctx, "addr.[country]"), "China".to_string());
    assert_eq!(top(&ctx, "addr.[\"country\"]"), "China".to_string());
    assert_eq!(top(&ctx, "addr.['country']"), "China".to_string());

    let ctx2 = Context::wraps(&Json::Bool(true));
    assert_eq!(top(&ctx2, "this"), "true".to_string());

    assert_eq!(top(&ctx, "titles[0]"), "programmer".to_string());
    assert_eq!(top(&ctx, "titles.[0]"), "programmer".to_string());

    assert_eq!(top(&ctx, "titles[0]/../../age"), "27".to_string());
    assert_eq!(top(&ctx, "this.titles[0]/../../age"), "27".to_string());
}

#[test]
fn test_this() {
    let mut map_with_this = Object::new();
    map_with_this.insert("this".to_string(), s("hello"));
    map_with_this.insert("age".to_string(), Json::Number(5));
    let ctx1 = Context::wraps(&Json::Object(map_with_this));

    let mut map_without_this = Object::new();
    map_without_this.insert("age".to_string(), Json::Number(4));
    let ctx2 = Context::wraps(&Json::Object(map_without_this));

    assert_eq!(top(&ctx1, "this"), "hello".to_owned());
    assert_eq!(top(&ctx2, "age"), "4".to_owned());
}

#[test]
fn test_extend() {
    let mut map = Object::new();
    map.insert("age".to_string(), Json::Number(4));
    let ctx1 = Context::wraps(&Json::Object(map));

    let ctx2 = Context::wraps(&s("hello"));

    let mut hash = Object::new();
    hash.insert("tag".to_owned(), s("h1"));

    let ctx_a1 = ctx1.extend(&hash);
    assert_eq!(top(&ctx_a1, "age"), "4".to_owned());
    assert_eq!(top(&ctx_a1, "tag"), "h1".to_owned());

    let ctx_a2 = ctx2.extend(&hash);
    assert_eq!(top(&ctx_a2, "this"), "hello".to_owned());
    assert_eq!(top(&ctx_a2, "tag"), "h1".to_owned());
}

#[test]
fn test_key_name_with_this() {
    let mut m = Object::new();
    m.insert("this_name".to_string(), s("the_value"));
    let ctx = Context::wraps(&Json::Object(m));
    assert_eq!(top(&ctx, "this_name"), "the_value".to_string());
}

#[test]
fn this_reads_root_object_without_this_key() {
    let ctx = Context::wraps(&person());
    assert!(same(ctx.navigate(".", &VecDeque::new(), "this"), ctx.data()));
}

#[test]
fn extend_twice_equals_extend_once() {
    let mut hash = Object::new();
    hash.insert("tag".to_owned(), s("h1"));
    hash.insert("age".to_owned(), Json::Number(30));
    hash.insert("tag".to_owned(), s("h2"));
    for base in [person(), s("hello"), Json::Null] {
        let ctx = Context::wraps(&base);
        let once = ctx.extend(&hash);
        let twice = once.extend(&hash);
        assert!(same(once.data(), twice.data()));
    }
    let once = Context::wraps(&person()).extend(&hash);
    assert_eq!(top(&once, "tag"), "h2");
    assert_eq!(top(&once, "age"), "30");
    assert_eq!(top(&once, "name"), "Ning Sun");
}

#[test]
fn extend_leaves_receiver_unchanged() {
    let ctx = Context::wraps(&person());
    let mut hash = Object::new();
    hash.insert("age".to_owned(), Json::Number(1));
    let _ = ctx.extend(&hash);
    assert_eq!(top(&ctx, "age"), "27");
}

#[test]
fn parent_reference_starts_from_stacked_root() {
    let mut a = Object::new();
    a.insert("x".to_string(), s("from a"));
    a.insert("y".to_string(), s("inner y"));
    let mut root = Object::new();
    root.insert("a".to_string(), Json::Object(a));
    root.insert("x".to_string(), s("top x"));
    let mut b = Object::new();
    b.insert("y".to_string(), s("b y"));
    root.insert("b".to_string(), Json::Object(b));
    let ctx = Context::wraps(&Json::Object(root));

    let mut roots = VecDeque::new();
    roots.push_front("./a/y".to_string());
    assert_eq!(ctx.navigate("./b/y", &roots, "../x").render(), "from a");
    assert_eq!(ctx.navigate("./b/y", &VecDeque::new(), "../x").render(), "");
    assert_eq!(ctx.navigate("./b/y", &VecDeque::new(), "../y").render(), "b y");
    // no stacked root at that depth: the base path is used
    assert_eq!(ctx.navigate("./a/y", &roots, "../../x").render(), "top x");
}

#[test]
fn navigation_gives_null_for_missing_or_bad_paths() {
    let ctx = Context::wraps(&person());
    assert!(ctx.navigate(".", &VecDeque::new(), "nope").is_null());
    assert!(ctx.navigate(".", &VecDeque::new(), "titles[2]").is_null());
    assert!(ctx.navigate(".", &VecDeque::new(), "titles.name").is_null());
    assert!(ctx.navigate(".", &VecDeque::new(), "name.first").is_null());
    assert!(ctx.navigate(".", &VecDeque::new(), "").is_null());
    assert!(ctx.navigate(".", &VecDeque::new(), "a b").is_null());
    assert!(ctx.navigate(".", &VecDeque::new(), "addr.[country").is_null());
    assert!(ctx.navigate(".", &VecDeque::new(), "titles[99999999999999999999999]").is_null());
    assert_eq!(top(&ctx, "titles.1"), "cartographier");
    assert_eq!(top(&ctx, "titles.[+1]"), "cartographier");
    assert!(ctx.navigate(".", &VecDeque::new(), "titles.[+]").is_null());
    assert!(ctx.navigate(".", &VecDeque::new(), "titles.[-1]").is_null());
}

#[test]
fn render_of_each_shape() {
    assert_eq!(Json::Null.render(), "");
    assert_eq!(Json::Bool(false).render(), "false");
    assert_eq!(Json::Number(-42).render(), "-42");
    assert_eq!(Json::Number(i64::MIN).render(), "-9223372036854775808");
    assert_eq!(Json::Number(0).render(), "0");
    assert_eq!(Json::Array(vec![s("a"), Json::Number(1)]).render(), "[a, 1, ]");
    assert_eq!(Json::Array(vec![]).render(), "[]");
    assert_eq!(Json::Object(Object::new()).render(), "[object]");
}

#[test]
fn truthiness_of_each_shape() {
    assert!(!Json::Null.is_truthy());
    assert!(Json::Bool(true).is_truthy());
    assert!(!Json::Number(0).is_truthy());
    assert!(Json::Number(-3).is_truthy());
    assert!(!s("").is_truthy());
    assert!(s("x").is_truthy());
    assert!(!Json::Array(vec![]).is_truthy());
    assert!(Json::Array(vec![Json::Null]).is_truthy());
    assert!(!Json::Object(Object::new()).is_truthy());
    assert!(person().is_truthy());
}

#[test]
fn as_string_reads_strings_only() {
    assert_eq!(as_string(&s("abc")), Some("abc"));
    assert_eq!(as_string(&Json::Number(1)), None);
}

#[test]
fn object_insert_replaces_in_place() {
    let mut o = Object::new();
    o.insert("a".to_string(), Json::Number(1));
    o.insert("b".to_string(), Json::Number(2));
    o.insert("a".to_string(), Json::Number(3));
    assert_eq!(o.len(), 2);
    assert_eq!(o.key_at(0), "a");
    assert_eq!(o.get("a").unwrap().render(), "3");
    assert!(o.get("c").is_none());
}

#[test]
fn path_segments() {
    let segs = parse_path("../a.[b c]/['d']/12").unwrap();
    assert_eq!(segs.len(), 5);
    assert!(matches!(segs[0], PathSegment::Up));
    assert!(matches!(&segs[1], PathSegment::Id(n) if n == "a"));
    assert!(matches!(&segs[2], PathSegment::RawId(n) if n == "b c"));
    assert!(matches!(&segs[3], PathSegment::RawId(n) if n == "d"));
    assert!(matches!(&segs[4], PathSegment::NumId(n) if n == "12"));
    assert!(parse_path("").is_none());
    assert!(parse_path("a-b").is_none());
    assert!(parse_path(".").unwrap().is_empty());
}
