use repohost::ssh_service::SshKeyService;

#[test]
fn service_points_at_the_users_authorized_keys() {
    let svc = SshKeyService::new("/home/git");
    assert_eq!(svc.authorized_keys_path().as_str(), "/home/git/.ssh/authorized_keys");
}

#[test]
fn add_key_appends_one_line() {
    let svc = SshKeyService::new("/home/git");
    assert_eq!(svc.add_key("", "ssh-ed25519 AAA key1"), "ssh-ed25519 AAA key1\n");
    assert_eq!(
        svc.add_key("ssh-rsa BBB old\n", "ssh-ed25519 AAA key1"),
        "ssh-rsa BBB old\nssh-ed25519 AAA key1\n"
    );
}

#[test]
fn remove_key_drops_every_line_containing_it() {
    let svc = SshKeyService::new("/home/git");
    let contents = "ssh-rsa AAA one\nssh-ed25519 BBB two\nssh-rsa AAA one again\n";
    assert_eq!(svc.remove_key(contents, "AAA"), "ssh-ed25519 BBB two\n");
    assert_eq!(svc.remove_key(contents, "BBB"), "ssh-rsa AAA one\nssh-rsa AAA one again\n");
    assert_eq!(svc.remove_key(contents, "CCC"), contents);
    assert_eq!(svc.remove_key("", "AAA"), "");
}

#[test]
fn remove_key_closes_an_unterminated_final_line() {
    let svc = SshKeyService::new("/home/git");
    assert_eq!(svc.remove_key("keep me", "absent"), "keep me\n");
    assert_eq!(svc.remove_key("drop me", "drop"), "");
}

#[test]
fn update_key_replaces_the_old_entry() {
    let svc = SshKeyService::new("/home/git");
    let contents = "ssh-rsa OLD alice\nssh-ed25519 KEEP bob\n";
    let updated = svc.update_key(contents, "OLD", "ssh-rsa NEW alice");
    assert_eq!(updated, "ssh-ed25519 KEEP bob\nssh-rsa NEW alice\n");
}
