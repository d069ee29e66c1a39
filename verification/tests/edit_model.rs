use smartedit::edit::{GenericModification, Modification};

#[test]
fn a_generic_modification_converts_into_a_modification() {
    let generic = GenericModification::CreateDirectory { path: "out".to_owned(), span: None };
    let modification = Modification::from(generic.clone());
    assert_eq!(modification, Modification::Generic(generic));
}
