use jisort::statements::ImportType;
use jisort::statements::ImportType::{Alias, Global, Local, Module, ScopedModule, Style};

#[test]
fn global_before_style() {
    assert!(Global < Style);
}

#[test]
fn module_before_local() {
    assert!(Module < Local);
}

#[test]
fn local_alias() {
    assert_eq!(ImportType::from("@/components"), Alias);
    assert_eq!(ImportType::from("@"), Alias);
    assert_eq!(ImportType::from("@/utils"), Alias);
}

#[test]
fn scoped_module() {
    assert_eq!(ImportType::from("@react"), ScopedModule);
    assert_eq!(ImportType::from("@jvs-group/lib"), ScopedModule);
    assert_eq!(ImportType::from("@testing-library/react"), ScopedModule);
}

#[test]
fn style() {
    // A stylesheet counts before a local import.
    assert_eq!(ImportType::from("./style.css"), Style);
    // A stylesheet counts before a scoped module.
    assert_eq!(ImportType::from("@react/style.css"), Style);
    assert_eq!(ImportType::from("components/style.css"), Style);
}

#[test]
fn local() {
    assert_eq!(ImportType::from("./third-party.js"), Local);
    assert_eq!(ImportType::from("../components/toolbar.js"), Local);
    assert_eq!(ImportType::from("../../utils/phone.js"), Local);
}

#[test]
fn global_and_module() {
    assert_eq!(ImportType::from("react"), Global);
    assert_eq!(ImportType::from("lodash"), Global);
    assert_eq!(ImportType::from("prop-types"), Global);
    assert_eq!(ImportType::from("react-dom"), Module);
    assert_eq!(ImportType::from("React"), Module);
    assert_eq!(ImportType::from("lodash/fp"), Module);
    assert_eq!(ImportType::from(""), Module);
    assert_eq!(ImportType::from("css"), Module);
}

#[test]
fn alias_counts_before_style() {
    assert_eq!(ImportType::from("@/style.css"), Alias);
    assert_eq!(ImportType::from("@scope/x.css"), Style);
    assert_eq!(ImportType::from("./x.css"), Style);
    assert_eq!(ImportType::from(".css"), Style);
    assert_eq!(ImportType::from("@.css"), Style);
    assert_eq!(ImportType::from("@x"), ScopedModule);
    assert_eq!(ImportType::from("."), Local);
}

#[test]
fn categories_are_ordered_as_they_are_ranked() {
    let all = [Global, ScopedModule, Module, Alias, Local, Style];
    for (i, a) in all.iter().enumerate() {
        assert_eq!(a.position() as usize, i);
        for (j, b) in all.iter().enumerate() {
            assert_eq!(a < b, i < j);
            assert_eq!(a == b, i == j);
        }
    }
    assert_eq!(ImportType::default(), Global);
}
