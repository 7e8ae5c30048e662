use turbo_tasks_backend::TaskId;
use turbo_tasks_backend::ids::{CellId, ValueTypeId};
use turbo_tasks_backend::introspect::{
    html_escape, html_string_escape, internal_type_label, render_child_line, render_details,
    render_introspection_page, str_or_err, u64_to_string, vc_path, ChildEntry,
    IntrospectionSource, RouteType,
};
use turbo_tasks_backend::registry::Registry;
use turbo_tasks_backend::vc::RawVc;

#[test]
fn html_escaping_replaces_the_three_text_entities() {
    assert_eq!(html_escape("a&b<c>d"), "a&amp;b&lt;c&gt;d");
    assert_eq!(html_escape(""), "");
    assert_eq!(html_escape("plain"), "plain");
    // quotes stay untouched in text position
    assert_eq!(html_escape("say \"hi\""), "say \"hi\"");
    // non-ASCII text passes through unchanged
    assert_eq!(html_escape("café<"), "café&lt;");
}

#[test]
fn html_string_escaping_also_quotes() {
    assert_eq!(html_string_escape("a\"b&c"), "a&quot;b&amp;c");
    assert_eq!(html_string_escape("<>&\""), "&lt;&gt;&amp;&quot;");
}

#[test]
fn numbers_render_in_decimal() {
    assert_eq!(u64_to_string(0), "0");
    assert_eq!(u64_to_string(7), "7");
    assert_eq!(u64_to_string(10), "10");
    assert_eq!(u64_to_string(12345), "12345");
    assert_eq!(u64_to_string(u64::MAX), "18446744073709551615");
}

#[test]
fn handle_paths_name_output_and_cell() {
    assert_eq!(vc_path(RawVc::TaskOutput(TaskId(3))), "o3");
    let cell = CellId { type_id: ValueTypeId(5), index: 0 };
    assert_eq!(vc_path(RawVc::TaskCell(TaskId(3), cell)), "c3.5.0");
}

#[test]
fn child_lines_percent_encode_the_path() {
    let entry = ChildEntry {
        name: "n".to_string(),
        ty: "y".to_string(),
        title: "t".to_string(),
        path: "a b".to_string(),
    };
    // the space must come back percent-encoded: the line would differ if
    // the encoder handed its argument through unchanged
    assert_eq!(
        render_child_line(&entry),
        "<li>n <!-- t --><a href=\"./a%20b\">[y] t</a></li>"
    );
}

#[test]
fn child_lines_escape_untrusted_text() {
    let entry = ChildEntry {
        name: "a&b".to_string(),
        ty: "<y>".to_string(),
        title: "t\"t".to_string(),
        path: "p".to_string(),
    };
    assert_eq!(
        render_child_line(&entry),
        "<li>a&amp;b <!-- t\"t --><a href=\"./p\">[&lt;y&gt;] t\"t</a></li>"
    );
}

#[test]
fn details_block_folds_only_beside_children() {
    assert_eq!(render_details(&"".to_string(), true), "");
    assert_eq!(
        render_details(&"D".to_string(), false),
        "<h3>Details</h3><pre>D</pre>"
    );
    assert_eq!(
        render_details(&"D".to_string(), true),
        "<details><summary><h3 style=\"display: inline;\">Details</h3></summary><pre>D</pre></details>"
    );
}

#[test]
fn page_renders_with_the_html_content_type() {
    let page = render_introspection_page(
        &"Text#0".to_string(),
        &"Y".to_string(),
        &"T".to_string(),
        &"".to_string(),
        &Vec::new(),
    );
    assert_eq!(page.content_type, "text/html; charset=utf-8");
    assert_eq!(
        page.body,
        "<!DOCTYPE html>\n<html><head><title>T</title></head>\n<body>\n  <h3>Text#0</h3>\n  \
         <h2>Y</h2>\n  <h1>T</h1>\n  \n  <ul></ul>\n</body>\n</html>"
    );
}

#[test]
fn page_escapes_title_and_type() {
    let page = render_introspection_page(
        &"I".to_string(),
        &"<y>".to_string(),
        &"a&b".to_string(),
        &"".to_string(),
        &Vec::new(),
    );
    assert!(page.body.contains("<title>a&amp;b</title>"));
    assert!(page.body.contains("<h2>&lt;y&gt;</h2>"));
    assert!(page.body.contains("<h1>a&amp;b</h1>"));
}

#[test]
fn results_render_verbatim_or_behind_error_prefix() {
    assert_eq!(str_or_err(&Ok("value".to_string())), "value");
    assert_eq!(str_or_err(&Err("broken".to_string())), "ERROR: broken");
}

#[test]
fn internal_type_labels_join_name_and_index() {
    let mut reg = Registry::new();
    let text = reg.register_value_type("Text".to_string(), Vec::new());
    let cell = CellId { type_id: text, index: 2 };
    assert_eq!(
        internal_type_label(&reg, RawVc::TaskCell(TaskId(1), cell)),
        "Text#2"
    );
}

#[test]
fn introspection_source_describes_itself() {
    let source = IntrospectionSource {
        roots: vec![RawVc::TaskOutput(TaskId(4))],
    };
    assert_eq!(source.ty(), "introspection-source");
    assert_eq!(source.title(), "introspection-source");
    let children = source.children();
    assert_eq!(children.len(), 1);
    assert_eq!(children[0].0, "root");
    assert_eq!(children[0].1, RawVc::TaskOutput(TaskId(4)));
    assert_eq!(source.get_routes(), vec![RouteType::Exact, RouteType::CatchAll]);
    assert_eq!(source.default_target(), Some(RawVc::TaskOutput(TaskId(4))));
    let many = IntrospectionSource {
        roots: vec![RawVc::TaskOutput(TaskId(1)), RawVc::TaskOutput(TaskId(2))],
    };
    assert_eq!(many.default_target(), None);
}
