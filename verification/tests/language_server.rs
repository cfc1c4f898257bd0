use codira::language_server::{FunctionRender, SymbolKind};

#[test]
fn function_completion_shows_its_return_type() {
    let render = FunctionRender::new(None, "foo".to_string(), "()".to_string()).unwrap();
    let item = render.render();
    assert_eq!(item.kind, SymbolKind::Function);
    assert_eq!(item.label, "foo");
    assert_eq!(item.detail, Some("-> ()".to_string()));
}

#[test]
fn function_completion_prefers_the_local_name() {
    let render =
        FunctionRender::new(Some("bar".to_string()), "foo".to_string(), "u32".to_string()).unwrap();
    let item = render.render();
    assert_eq!(item.label, "bar");
    assert_eq!(item.detail, Some("-> u32".to_string()));
}
