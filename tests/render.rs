use handlebars::context::Context;
use handlebars::json::{Json, Object};
use handlebars::render::{
    choose_partial, decorator_outcome, fallback_helper_name, helper_outcome, html_escape,
    partial_base_path, partial_not_found, Directive, Helper, Registry, RenderContext, RenderError,
    MAX_PARTIAL_DEPTH,
};
use handlebars::template::{
    DirectiveTemplate, HelperTemplate, Parameter, Template, TemplateElement, TemplateMapping,
};

/// A registry with a few templates and the helpers the tests need.
struct TestRegistry {
    templates: Vec<(String, Template)>,
    format: bool,
}

impl TestRegistry {
    fn new() -> TestRegistry {
        TestRegistry { templates: Vec::new(), format: false }
    }

    fn register_template(&mut self, name: &str, mut t: Template) {
        t.name = Some(name.to_string());
        self.templates.push((name.to_string(), t));
    }

    fn render(&self, name: &str, data: &Json) -> Result<String, RenderError> {
        let t = self.get_template(name).expect("registered");
        let ctx = Context::wraps(data);
        let mut rc = RenderContext::new(&ctx);
        rc.root_template = Some(name.to_string());
        t.render(self, &mut rc)?;
        Ok(rc.writer)
    }
}

fn if_helper(r: &TestRegistry, h: &Helper, rc: &mut RenderContext) -> Result<(), RenderError> {
    let value = h
        .param(0)
        .ok_or_else(|| RenderError::new("Param not found for helper \"if\""))?;
    let branch = if value.value().is_truthy() { h.template() } else { h.inverse() };
    match branch {
        Some(t) => t.render(r, rc),
        None => Ok(()),
    }
}

fn each_helper(r: &TestRegistry, h: &Helper, rc: &mut RenderContext) -> Result<(), RenderError> {
    let value = h
        .param(0)
        .ok_or_else(|| RenderError::new("Param not found for helper \"each\""))?;
    if let (Json::Array(items), Some(t)) = (value.value(), h.template()) {
        for i in 0..items.len() {
            rc.push_block_context(&items[i]);
            t.render(r, rc)?;
            rc.pop_block_context();
        }
    }
    Ok(())
}

impl Registry for TestRegistry {
    fn escape(&self, text: &str) -> String {
        html_escape(text)
    }

    fn get_template(&self, name: &str) -> Option<&Template> {
        self.templates.iter().find(|(n, _)| n == name).map(|(_, t)| t)
    }

    fn call_helper(
        &self,
        name: &str,
        h: &Helper,
        rc: &mut RenderContext,
    ) -> Option<Result<(), RenderError>> {
        match name {
            "if" => Some(if_helper(self, h, rc)),
            "each" => Some(each_helper(self, h, rc)),
            "format" if self.format => {
                let text = h.param(0).unwrap().value().render();
                rc.writer.push_str(&format!("{}", text));
                Some(Ok(()))
            }
            _ => None,
        }
    }

    fn call_decorator(
        &self,
        name: &str,
        d: &Directive,
        rc: &mut RenderContext,
    ) -> Option<Result<(), RenderError>> {
        match name {
            "inline" => {
                let partial_name = d.param(0).and_then(|p| p.value().as_str().map(|s| s.to_string()));
                match (partial_name, d.template()) {
                    (Some(n), Some(t)) => {
                        rc.set_partial(n, t.clone());
                        Some(Ok(()))
                    }
                    _ => Some(Err(RenderError::new("Invalid inline partial"))),
                }
            }
            _ => None,
        }
    }
}

fn template(elements: Vec<TemplateElement>) -> Template {
    Template { name: None, elements, mapping: None }
}

fn name(n: &str) -> Parameter {
    Parameter::Name(n.to_string())
}

fn raw(t: &str) -> TemplateElement {
    TemplateElement::RawString(t.to_string())
}

fn helper(n: &str, params: Vec<Parameter>, body: Option<Template>, block: bool) -> HelperTemplate {
    HelperTemplate {
        name: n.to_string(),
        params,
        hash: Vec::new(),
        block_param: None,
        template: body,
        inverse: None,
        block,
    }
}

fn directive(n: &str, params: Vec<Parameter>, body: Option<Template>) -> DirectiveTemplate {
    DirectiveTemplate { name: name(n), params, hash: Vec::new(), template: body }
}

fn string_map(pairs: &[(&str, &str)]) -> Json {
    let mut m = Object::new();
    for (k, v) in pairs {
        m.insert(k.to_string(), Json::String(v.to_string()));
    }
    Json::Object(m)
}

#[test]
fn test_raw_string() {
    let r = TestRegistry::new();
    let ctx = Context::null();
    let mut rc = RenderContext::new(&ctx);
    let raw_string = TemplateElement::RawString("<h1>hello world</h1>".to_string());

    raw_string.render(&r, &mut rc).ok().unwrap();
    assert_eq!(rc.writer, "<h1>hello world</h1>".to_string());
}

#[test]
fn test_expression() {
    let r = TestRegistry::new();
    let ctx = Context::wraps(&string_map(&[("hello", "<p></p>")]));
    let mut rc = RenderContext::new(&ctx);
    let element = TemplateElement::Expression(Parameter::Name("hello".into()));

    element.render(&r, &mut rc).ok().unwrap();

    assert_eq!(rc.writer, "&lt;p&gt;&lt;/p&gt;".to_string());
}

#[test]
fn test_html_expression() {
    let r = TestRegistry::new();
    let value = "world";
    let ctx = Context::wraps(&string_map(&[("hello", value)]));
    let mut rc = RenderContext::new(&ctx);
    let element = TemplateElement::HTMLExpression(Parameter::Name("hello".into()));
    element.render(&r, &mut rc).ok().unwrap();

    assert_eq!(rc.writer, value.to_string());
}

#[test]
fn test_template() {
    let r = TestRegistry::new();
    let ctx = Context::wraps(&string_map(&[("hello", "world")]));
    let mut rc = RenderContext::new(&ctx);
    let mut elements: Vec<TemplateElement> = Vec::new();

    elements.push(TemplateElement::RawString("<h1>".to_string()));
    elements.push(TemplateElement::Expression(Parameter::Name("hello".into())));
    elements.push(TemplateElement::RawString("</h1>".to_string()));
    elements.push(TemplateElement::Comment("".to_string()));

    let template = Template { elements, name: None, mapping: None };
    template.render(&r, &mut rc).ok().unwrap();

    assert_eq!(rc.writer, "<h1>world</h1>".to_string());
}

#[test]
fn test_render_context_promotion_and_demotion() {
    let ctx = Context::null();
    let mut render_context = RenderContext::new(&ctx);

    render_context.set_local_var("@index".to_string(), Json::Number(0));

    render_context.promote_local_vars();

    assert!(matches!(
        render_context.get_local_var(&"@../index".to_string()).unwrap(),
        Json::Number(0)
    ));

    render_context.demote_local_vars();

    assert!(matches!(
        render_context.get_local_var(&"@index".to_string()).unwrap(),
        Json::Number(0)
    ));
}

#[test]
fn test_render_subexpression() {
    let r = TestRegistry::new();
    let m = string_map(&[("hello", "world"), ("world", "nice"), ("const", "truthy")]);

    // <h1>{{#if (const)}}{{(hello)}}{{/if}}</h1>
    let cond = Parameter::Subexpression(Box::new(template(vec![TemplateElement::Expression(name(
        "const",
    ))])));
    let inner = Parameter::Subexpression(Box::new(template(vec![TemplateElement::Expression(
        name("hello"),
    )])));
    let body = template(vec![TemplateElement::Expression(inner)]);
    let t = template(vec![
        raw("<h1>"),
        TemplateElement::HelperBlock(helper("if", vec![cond], Some(body), true)),
        raw("</h1>"),
    ]);
    let ctx = Context::wraps(&m);
    let mut rc = RenderContext::new(&ctx);
    if let Err(e) = t.render(&r, &mut rc) {
        panic!("{}", e.to_string());
    }

    assert_eq!(rc.writer, "<h1>world</h1>".to_string());
}

#[test]
fn test_render_subexpression_issue_115() {
    let mut r = TestRegistry::new();
    r.format = true;

    // {{format (format a)}}
    let inner = template(vec![TemplateElement::HelperExpression(helper(
        "format",
        vec![name("a")],
        None,
        false,
    ))]);
    let t = template(vec![TemplateElement::HelperExpression(helper(
        "format",
        vec![Parameter::Subexpression(Box::new(inner))],
        None,
        false,
    ))]);
    let ctx = Context::wraps(&string_map(&[("a", "123")]));
    let mut rc = RenderContext::new(&ctx);
    if let Err(e) = t.render(&r, &mut rc) {
        panic!("{}", e.to_string());
    }

    assert_eq!(rc.writer, "123".to_string());
}

#[test]
fn test_render_error_line_no() {
    let mut r = TestRegistry::new();
    let m = Json::Object(Object::new());

    // "<h1>\n{{#if true}}\n  {{#each}}{{/each}}\n{{/if}}"
    let name_ = "invalid_template";
    let each = helper("each", vec![], Some(template(vec![])), true);
    let if_body = Template {
        name: None,
        elements: vec![raw("\n  "), TemplateElement::HelperBlock(each), raw("\n")],
        mapping: Some(vec![TemplateMapping(2, 13), TemplateMapping(3, 3), TemplateMapping(3, 21)]),
    };
    let if_block = helper("if", vec![Parameter::Literal(Json::Bool(true))], Some(if_body), true);
    let t = Template {
        name: None,
        elements: vec![raw("<h1>\n"), TemplateElement::HelperBlock(if_block)],
        mapping: Some(vec![TemplateMapping(1, 1), TemplateMapping(2, 1)]),
    };
    r.register_template(name_, t);

    if let Err(e) = r.render(name_, &m) {
        assert_eq!(e.line_no.unwrap(), 3);
        assert_eq!(e.column_no.unwrap(), 3);
        assert_eq!(e.template_name, Some(name_.to_owned()));
    } else {
        panic!("Error expected");
    }
}

#[test]
fn test_partial_failback_render() {
    let mut r = TestRegistry::new();

    // "<html>{{> layout}}</html>"
    let parent = template(vec![
        raw("<html>"),
        TemplateElement::PartialExpression(directive("layout", vec![], None)),
        raw("</html>"),
    ]);
    // "{{#*inline \"layout\"}}content{{/inline}}{{#> parent}}{{> seg}}{{/parent}}"
    let child = template(vec![
        TemplateElement::DirectiveBlock(directive(
            "inline",
            vec![Parameter::Literal(Json::String("layout".to_string()))],
            Some(template(vec![raw("content")])),
        )),
        TemplateElement::PartialBlock(directive(
            "parent",
            vec![],
            Some(template(vec![TemplateElement::PartialExpression(directive(
                "seg",
                vec![],
                None,
            ))])),
        )),
    ]);
    r.register_template("parent", parent);
    r.register_template("child", child);
    r.register_template("seg", template(vec![raw("1234")]));

    let r = r.render("child", &Json::Bool(true)).expect("should work");
    assert_eq!(r, "<html>content</html>");
}

#[test]
fn subexpression_output_is_not_escaped_twice() {
    let r = TestRegistry::new();
    let ctx = Context::wraps(&string_map(&[("hello", "<p>")]));
    let mut rc = RenderContext::new(&ctx);
    let sub = Parameter::Subexpression(Box::new(template(vec![TemplateElement::Expression(name(
        "hello",
    ))])));
    TemplateElement::Expression(sub).render(&r, &mut rc).unwrap();
    assert_eq!(rc.writer, "&lt;p&gt;");

    let sub2 = Parameter::Subexpression(Box::new(template(vec![TemplateElement::Expression(name(
        "hello",
    ))])));
    let v = sub2.expand(&r, &rc).unwrap();
    assert_eq!(v.value().render(), "<p>");
    assert!(v.path().is_none());
}

#[test]
fn partial_block_falls_back_to_its_body() {
    let r = TestRegistry::new();
    let t = template(vec![TemplateElement::PartialBlock(directive(
        "missing",
        vec![],
        Some(template(vec![raw("fallback")])),
    ))]);
    let ctx = Context::null();
    let mut rc = RenderContext::new(&ctx);
    t.render(&r, &mut rc).unwrap();
    assert_eq!(rc.writer, "fallback");
}

#[test]
fn partial_gets_path_and_hash() {
    let mut r = TestRegistry::new();
    r.register_template(
        "user",
        template(vec![
            TemplateElement::Expression(name("name")),
            raw("/"),
            TemplateElement::Expression(name("tag")),
        ]),
    );
    let mut data = Object::new();
    data.insert("person".to_string(), string_map(&[("name", "Ann")]));
    let mut dt = directive("user", vec![name("person")], None);
    dt.hash.push(("tag".to_string(), Parameter::Literal(Json::String("x".to_string()))));
    let t = template(vec![TemplateElement::PartialExpression(dt)]);
    let ctx = Context::wraps(&Json::Object(data));
    let mut rc = RenderContext::new(&ctx);
    t.render(&r, &mut rc).unwrap();
    assert_eq!(rc.writer, "Ann/x");
}

#[test]
fn missing_helper_directive_and_partial_are_errors() {
    let r = TestRegistry::new();
    let ctx = Context::null();
    let mut rc = RenderContext::new(&ctx);
    let e = TemplateElement::HelperExpression(helper("nope", vec![], None, false))
        .render(&r, &mut rc)
        .unwrap_err();
    assert_eq!(e.desc, "Helper not defined: \"nope\"");
    let e = TemplateElement::DirectiveExpression(directive("nope", vec![], None))
        .render(&r, &mut rc)
        .unwrap_err();
    assert_eq!(e.desc, "Directive not defined: \"nope\"");
    let e = TemplateElement::PartialExpression(directive("nope", vec![], None))
        .render(&r, &mut rc)
        .unwrap_err();
    assert_eq!(e.desc, "Partial not found: \"nope\"");
}

#[test]
fn self_including_partial_stops_at_depth_limit() {
    let mut r = TestRegistry::new();
    r.register_template(
        "loop",
        template(vec![raw("x"), TemplateElement::PartialExpression(directive("loop", vec![], None))]),
    );
    let e = r.render("loop", &Json::Null).unwrap_err();
    assert_eq!(e.desc, "Partials nest too deeply");
    assert!(MAX_PARTIAL_DEPTH > 0);
}

#[test]
fn error_enrichment_keeps_first_position() {
    let e = RenderError::new("boom");
    assert_eq!(e.to_string(), "boom");
    let name1 = Some("inner".to_string());
    let e = e.with_location(&name1, Some(TemplateMapping(3, 4)));
    let e = e.with_location(&Some("outer".to_string()), Some(TemplateMapping(9, 9)));
    assert_eq!(e.line_no, Some(3));
    assert_eq!(e.column_no, Some(4));
    assert_eq!(e.template_name, Some("inner".to_string()));
    assert_eq!(e.to_string(), "Error rendering \"inner\" line 3, col 4: boom");
    let unnamed = RenderError::new("bad").with_location(&None, Some(TemplateMapping(1, 2)));
    assert_eq!(unnamed.to_string(), "Error rendering \"Unnamed template\" line 1, col 2: bad");
    assert_eq!(unnamed.description(), "bad");
}

#[test]
fn locals_block_contexts_and_paths() {
    let r = TestRegistry::new();
    let ctx = Context::wraps(&string_map(&[("a", "root a")]));
    let mut rc = RenderContext::new(&ctx);
    rc.set_local_var("@first".to_string(), Json::Bool(true));
    rc.set_local_var("@x".to_string(), Json::Number(1));
    rc.promote_local_vars();
    rc.set_local_var("@x".to_string(), Json::Number(2));
    assert_eq!(rc.get_local_var(&"@../first".to_string()).unwrap().render(), "true");
    rc.demote_local_vars();
    assert_eq!(rc.get_local_var(&"@x".to_string()).unwrap().render(), "1");
    assert!(rc.get_local_var(&"@first".to_string()).is_some());
    rc.clear_local_vars();
    assert!(rc.get_local_var(&"@x".to_string()).is_none());

    rc.push_block_context(&string_map(&[("a", "block a")]));
    assert_eq!(rc.evaluate_in_block_context("a").unwrap().render(), "block a");
    assert!(rc.evaluate_in_block_context("zzz").is_none());
    let v = name("a").expand(&r, &rc).unwrap();
    assert_eq!(v.value().render(), "block a");
    assert_eq!(v.path().unwrap(), "a");
    rc.pop_block_context();
    let v = name("a").expand(&r, &rc).unwrap();
    assert_eq!(v.value().render(), "root a");

    rc.set_path("./sub".to_string());
    assert_eq!(rc.get_path(), "./sub");
    rc.push_local_path_root("./p".to_string());
    assert_eq!(rc.get_local_path_root().len(), 1);
    rc.pop_local_path_root();
    assert!(rc.get_local_path_root().is_empty());

    rc.current_template = Some("t".to_string());
    assert!(rc.is_current_template("t"));
    assert!(!rc.is_current_template("u"));
    assert!(rc.get_partial("p").is_none());
    rc.set_partial("p".to_string(), template(vec![raw("P")]));
    assert!(rc.get_partial("p").is_some());
    let child = rc.derive_capture();
    assert!(child.get_partial("p").is_some());
    assert!(child.writer.is_empty());

    rc.writer.push_str("before;");
    let mut child = rc.derive();
    assert!(rc.writer.is_empty());
    child.writer.push_str("child");
    child.set_path("./elsewhere".to_string());
    rc.rejoin(child);
    assert_eq!(rc.writer, "before;child");
    assert_eq!(rc.get_path(), "./sub");
}

#[test]
fn context_json_path_root() {
    let r = TestRegistry::new();
    let ctx = Context::null();
    let rc = RenderContext::new(&ctx);
    let v = name("a.b/c").expand(&r, &rc).unwrap();
    assert_eq!(v.path_root().unwrap(), "a");
    let lit = Parameter::Literal(Json::Number(5)).expand(&r, &rc).unwrap();
    assert!(lit.path_root().is_none());
    assert_eq!(Parameter::Literal(Json::Number(5)).expand_as_name(&r, &rc).unwrap(), "5");
}

#[test]
fn html_escape_of_special_characters() {
    assert_eq!(html_escape("a<b>&\"c'"), "a&lt;b&gt;&amp;&quot;c'");
    assert_eq!(html_escape(""), "");
}

#[test]
fn renders_captures_output() {
    let r = TestRegistry::new();
    let ctx = Context::wraps(&string_map(&[("hello", "<b>")]));
    let mut rc = RenderContext::new(&ctx);
    let t = template(vec![raw("["), TemplateElement::Expression(name("hello")), raw("]")]);
    assert_eq!(t.renders(&r, &rc).unwrap(), "[&lt;b&gt;]");
    assert!(rc.writer.is_empty());
    rc.disable_escape = true;
    assert_eq!(t.renders(&r, &rc).unwrap(), "[<b>]");
}

#[test]
fn helper_and_directive_outcomes() {
    assert_eq!(fallback_helper_name(true), "blockHelperMissing");
    assert_eq!(fallback_helper_name(false), "helperMissing");
    assert!(helper_outcome(Some(Ok(())), "h").is_ok());
    let e = helper_outcome(Some(Err(RenderError::new("inner"))), "h").unwrap_err();
    assert_eq!(e.desc, "inner");
    let e = helper_outcome(None, "h").unwrap_err();
    assert_eq!(e.desc, "Helper not defined: \"h\"");
    assert!(e.line_no.is_none() && e.template_name.is_none());
    let e = decorator_outcome(None, "d").unwrap_err();
    assert_eq!(e.desc, "Directive not defined: \"d\"");
    assert!(decorator_outcome(Some(Ok(())), "d").is_ok());
    assert_eq!(partial_not_found("p").desc, "Partial not found: \"p\"");
}

#[test]
fn helper_missing_fallback_is_called() {
    struct Fallback;
    impl Registry for Fallback {
        fn escape(&self, text: &str) -> String {
            html_escape(text)
        }
        fn get_template(&self, _name: &str) -> Option<&Template> {
            None
        }
        fn call_helper(
            &self,
            name: &str,
            h: &Helper,
            rc: &mut RenderContext,
        ) -> Option<Result<(), RenderError>> {
            if name == "helperMissing" {
                rc.writer.push_str("missing:");
                rc.writer.push_str(h.name());
                Some(Ok(()))
            } else {
                None
            }
        }
        fn call_decorator(
            &self,
            _name: &str,
            _d: &Directive,
            _rc: &mut RenderContext,
        ) -> Option<Result<(), RenderError>> {
            None
        }
    }
    let ctx = Context::null();
    let mut rc = RenderContext::new(&ctx);
    TemplateElement::HelperExpression(helper("foo", vec![], None, false))
        .render(&Fallback, &mut rc)
        .unwrap();
    assert_eq!(rc.writer, "missing:foo");
    let e = TemplateElement::HelperBlock(helper("foo", vec![], None, true))
        .render(&Fallback, &mut rc)
        .unwrap_err();
    assert_eq!(e.desc, "Helper not defined: \"foo\"");
}

#[test]
fn partial_choice_prefers_inline_then_registry_then_body() {
    let inline = template(vec![raw("inline")]);
    let registered = template(vec![raw("registered")]);
    let body = Some(template(vec![raw("body")]));
    let first = |t: Option<Template>| match t {
        Some(t) => match &t.elements[0] {
            TemplateElement::RawString(s) => s.clone(),
            _ => String::new(),
        },
        None => "none".to_string(),
    };
    assert_eq!(first(choose_partial(Some(inline), Some(&registered), &body)), "inline");
    assert_eq!(first(choose_partial(None, Some(&registered), &body)), "registered");
    assert_eq!(first(choose_partial(None, None, &body)), "body");
    assert_eq!(first(choose_partial(None, None, &None)), "none");

    let r = TestRegistry::new();
    let ctx = Context::wraps(&string_map(&[("a", "x")]));
    let rc = RenderContext::new(&ctx);
    let with_path = vec![name("a").expand(&r, &rc).unwrap()];
    assert_eq!(partial_base_path(&with_path).unwrap(), "a");
    let literal = vec![Parameter::Literal(Json::Null).expand(&r, &rc).unwrap()];
    assert!(partial_base_path(&literal).is_none());
    assert!(partial_base_path(&Vec::new()).is_none());
}

#[test]
fn error_from_failing_element_keeps_its_own_line() {
    let r = TestRegistry::new();
    let ctx = Context::null();
    let mut rc = RenderContext::new(&ctx);
    let inner = Template {
        name: Some("inner".to_string()),
        elements: vec![TemplateElement::HelperExpression(helper("nope", vec![], None, false))],
        mapping: Some(vec![TemplateMapping(7, 2)]),
    };
    let outer = Template {
        name: Some("outer".to_string()),
        elements: vec![
            raw("a"),
            TemplateElement::HelperBlock(helper(
                "if",
                vec![Parameter::Literal(Json::Bool(true))],
                Some(inner),
                true,
            )),
        ],
        mapping: Some(vec![TemplateMapping(1, 1), TemplateMapping(1, 2)]),
    };
    let e = outer.render(&r, &mut rc).unwrap_err();
    assert_eq!(e.line_no, Some(7));
    assert_eq!(e.column_no, Some(2));
    assert_eq!(e.template_name, Some("inner".to_string()));
    assert_eq!(rc.writer, "a");
}
