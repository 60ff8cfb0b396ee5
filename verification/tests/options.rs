use oxigraph::model::named_node::NamedNode;
use oxigraph::sparql::options::{QueryOptions, ServiceHandlerChoice, UpdateOptions};
use std::time::Duration;

fn iri(text: &str) -> NamedNode {
    NamedNode::new_unchecked(text.to_owned())
}

#[test]
fn the_default_handler_sends_calls_over_http() {
    let options = QueryOptions::new();
    assert!(matches!(options.service_handler(), ServiceHandlerChoice::Http(None)));
    let options = options.with_http_timeout(Duration::from_secs(3));
    assert_eq!(options.http_timeout(), Some(Duration::from_secs(3)));
    assert!(matches!(
        options.service_handler(),
        ServiceHandlerChoice::Http(Some(timeout)) if timeout == Duration::from_secs(3)
    ));
}

#[test]
fn a_handler_can_be_set_or_disabled() {
    let options = QueryOptions::new().with_service_handler(7);
    assert!(matches!(options.service_handler(), ServiceHandlerChoice::Custom(7)));
    let options = options.without_service_handler();
    assert!(matches!(options.service_handler(), ServiceHandlerChoice::Disabled));
}

#[test]
fn custom_functions_are_registered_by_iri() {
    let options = QueryOptions::new()
        .with_custom_function(iri("http://example.com/f"), 1)
        .with_custom_function(iri("http://example.com/g"), 2)
        .with_custom_function(iri("http://example.com/f"), 3);
    assert_eq!(options.custom_function(&iri("http://example.com/f")), Some(3));
    assert_eq!(options.custom_function(&iri("http://example.com/g")), Some(2));
    assert_eq!(options.custom_function(&iri("http://example.com/h")), None);
}

#[test]
fn update_options_carry_query_options() {
    let mut options = UpdateOptions::new(QueryOptions::new().with_service_handler(1));
    assert!(matches!(
        options.query_options().service_handler(),
        ServiceHandlerChoice::Custom(1)
    ));
    *options.query_options_mut() = QueryOptions::new().without_service_handler();
    assert!(matches!(
        options.query_options().service_handler(),
        ServiceHandlerChoice::Disabled
    ));
}
