use caminos_lib::experiments::Action;

#[test]
fn lib_it_works() {
    assert_eq!(2 + 2, 4);
}

#[test]
fn action_names_parse() {
    assert!(matches!(Action::from_name("default"), Ok(Action::LocalAndOutput)));
    assert!(matches!(Action::from_name("slurm_cancel"), Ok(Action::SlurmCancel)));
    assert!(Action::from_name("nothing").is_err());
}
