use smartedit::plan::PlannedAction;

#[test]
fn move_path_accessors_expose_source_and_destination() {
    let source = String::from("source.txt");
    let destination = String::from("destination.txt");
    let action = PlannedAction::MoveFile {
        source: source.clone(),
        destination: destination.clone(),
        overwrite: false,
    };

    assert_eq!(action.target_path(), &destination);
    assert_eq!(action.source_path(), Some(&source));
    assert_eq!(
        action.affected_paths().into_iter().cloned().collect::<Vec<_>>(),
        vec![source, destination]
    );
}
