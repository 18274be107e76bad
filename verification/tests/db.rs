use desk::db::{check_durability, migrations, pending_migrations};

#[test]
fn an_empty_database_lacks_every_step() {
    assert_eq!(pending_migrations(&Vec::new()), migrations());
    assert_eq!(migrations().len(), 20);
    assert_eq!(migrations()[0], "001_initial");
    assert_eq!(migrations()[19], "020_leader_lease");
}

#[test]
fn steps_are_applied_once_and_in_order() {
    let applied: Vec<String> = migrations()
        .into_iter()
        .filter(|s| *s != "012_account_amount_atoms" && *s != "005_klines")
        .map(|s| s.to_string())
        .collect();
    assert_eq!(pending_migrations(&applied), vec!["005_klines", "012_account_amount_atoms"]);
    let all: Vec<String> = migrations().into_iter().map(|s| s.to_string()).collect();
    assert!(pending_migrations(&all).is_empty());
}

#[test]
fn a_server_must_wait_for_its_log() {
    assert!(check_durability("on").is_ok());
    assert_eq!(
        check_durability("off"),
        Err("synchronous_commit must be 'on', server reports 'off'".to_string())
    );
    assert!(check_durability("remote_write").is_err());
}
