use lazyssh::app_state::FormField;
use lazyssh::host::SshHost;

fn sample() -> SshHost {
    SshHost {
        alias: "web".to_string(),
        hostname: "example.com".to_string(),
        port: 2222,
        user: "deploy".to_string(),
        identity_file: "~/.ssh/id".to_string(),
        extra_options: vec![("ForwardAgent".to_string(), "yes".to_string())],
    }
}

#[test]
fn empty_host_defaults() {
    let h = SshHost::empty();
    assert_eq!(h.alias, "");
    assert_eq!(h.hostname, "");
    assert_eq!(h.port, 22);
    assert_eq!(h.user, "");
    assert_eq!(h.identity_file, "");
    assert!(h.extra_options.is_empty());
    assert!(!h.is_valid());
    assert!(!h.has_custom_port());
    assert!(!h.has_identity_file());
    assert!(!h.has_extra_options());
}

#[test]
fn display_host_falls_back_to_alias() {
    let mut h = sample();
    assert_eq!(h.display_host(), "example.com");
    h.hostname.clear();
    assert_eq!(h.display_host(), "web");
}

#[test]
fn ssh_command_and_args_use_alias() {
    let h = sample();
    assert_eq!(h.as_ssh_command(), "ssh web");
    assert_eq!(h.as_ssh_args(), vec!["web".to_string()]);
}

#[test]
fn validity_needs_alias_and_hostname() {
    let mut h = sample();
    assert!(h.is_valid());
    h.hostname.clear();
    assert!(!h.is_valid());
    h.hostname = "x".to_string();
    h.alias.clear();
    assert!(!h.is_valid());
}

#[test]
fn flag_getters_track_fields() {
    let h = sample();
    assert!(h.has_custom_port());
    assert!(h.has_identity_file());
    assert!(h.has_extra_options());
}

#[test]
fn clone_is_deep() {
    let h = sample();
    let c = h.clone();
    assert_eq!(c.alias, h.alias);
    assert_eq!(c.hostname, h.hostname);
    assert_eq!(c.port, h.port);
    assert_eq!(c.user, h.user);
    assert_eq!(c.identity_file, h.identity_file);
    assert_eq!(c.extra_options, h.extra_options);
}

#[test]
fn form_field_order_and_labels() {
    let all = FormField::all();
    assert_eq!(all.len(), 5);
    assert_eq!(all[0], FormField::Alias);
    assert_eq!(all[4], FormField::IdentityFile);
    assert_eq!(FormField::Alias.label(), "Host Alias");
    assert_eq!(FormField::Port.label(), "Port");
    assert_eq!(FormField::Port.placeholder(), "default 22");
    let mut f = FormField::Alias;
    for expected in [
        FormField::HostName,
        FormField::Port,
        FormField::User,
        FormField::IdentityFile,
        FormField::Alias,
    ] {
        f = f.next();
        assert_eq!(f, expected);
    }
    assert_eq!(FormField::Alias.previous(), FormField::IdentityFile);
    assert!(FormField::Port.accepts_char('7'));
    assert!(!FormField::Port.accepts_char('x'));
    assert!(FormField::User.accepts_char('x'));
}
