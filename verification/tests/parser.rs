use lazyssh::config::{serialize, SshConfigParser};
use lazyssh::host::SshHost;

fn parse(text: &str) -> (String, Vec<SshHost>) {
    SshConfigParser::parse(text)
}

#[test]
fn empty_input_is_empty_configuration() {
    let (preamble, hosts) = parse("");
    assert_eq!(preamble, "");
    assert_eq!(hosts.len(), 0);
}

#[test]
fn preamble_kept_verbatim_before_first_host() {
    let (preamble, hosts) = parse("# global comment\n\nStrictHostKeyChecking no\nHost a\n");
    assert_eq!(preamble, "# global comment\n\nStrictHostKeyChecking no\n");
    assert_eq!(hosts.len(), 1);
    assert_eq!(hosts[0].alias, "a");
}

#[test]
fn simple_block_parses_all_fields() {
    let text = "Host web\n    HostName example.com\n    User deploy\n    Port 2222\n    IdentityFile ~/.ssh/id_ed25519\n";
    let (_, hosts) = parse(text);
    assert_eq!(hosts.len(), 1);
    assert_eq!(hosts[0].alias, "web");
    assert_eq!(hosts[0].hostname, "example.com");
    assert_eq!(hosts[0].user, "deploy");
    assert_eq!(hosts[0].port, 2222);
    assert_eq!(hosts[0].identity_file, "~/.ssh/id_ed25519");
}

#[test]
fn port_defaults_to_22_without_port_line() {
    let (_, hosts) = parse("Host a\n    HostName x\n");
    assert_eq!(hosts[0].port, 22);
}

#[test]
fn unparsable_port_falls_back_to_22() {
    let (_, hosts) = parse("Host a\n    Port abc\n");
    assert_eq!(hosts[0].port, 22);
    let (_, hosts) = parse("Host a\n    Port 70000\n");
    assert_eq!(hosts[0].port, 22);
    let (_, hosts) = parse("Host a\n    Port \n");
    assert_eq!(hosts[0].port, 22);
}

#[test]
fn plus_prefixed_port_is_accepted() {
    let (_, hosts) = parse("Host a\n    Port +2200\n");
    assert_eq!(hosts[0].port, 2200);
}

#[test]
fn inline_comment_stripped_from_value() {
    let (_, hosts) = parse("Host a\n    HostName example.com # not a host\n");
    assert_eq!(hosts[0].hostname, "example.com");
}

#[test]
fn quoted_hash_is_not_a_comment() {
    let (_, hosts) = parse("Host \"weird # alias\"\n    HostName x\n");
    assert_eq!(hosts.len(), 1);
    assert_eq!(hosts[0].alias, "\"weird # alias\"");
}

#[test]
fn single_quoted_hash_is_not_a_comment() {
    let (_, hosts) = parse("Host a\n    HostName 'ex#ample'\n");
    assert_eq!(hosts[0].hostname, "'ex#ample'");
}

#[test]
fn keys_are_case_insensitive() {
    let (_, hosts) = parse("Host a\n    HOSTNAME x\n    pOrT 80\n    USER u\n    identityFILE f\n");
    assert_eq!(hosts[0].hostname, "x");
    assert_eq!(hosts[0].port, 80);
    assert_eq!(hosts[0].user, "u");
    assert_eq!(hosts[0].identity_file, "f");
}

#[test]
fn header_is_case_insensitive() {
    let (_, hosts) = parse("hOsT a\n    HostName x\n");
    assert_eq!(hosts.len(), 1);
    assert_eq!(hosts[0].alias, "a");
}

#[test]
fn hostname_line_is_not_a_header() {
    let (preamble, hosts) = parse("HostName floating\nHost a\n");
    assert_eq!(preamble, "HostName floating\n");
    assert_eq!(hosts.len(), 1);
}

#[test]
fn unknown_directives_preserved_in_order_and_case() {
    let (_, hosts) = parse(
        "Host a\n    ForwardAgent yes\n    ProxyJump bastion\n    ForwardX11 no\n",
    );
    let extras = &hosts[0].extra_options;
    assert_eq!(extras.len(), 3);
    assert_eq!(extras[0], ("ForwardAgent".to_string(), "yes".to_string()));
    assert_eq!(extras[1], ("ProxyJump".to_string(), "bastion".to_string()));
    assert_eq!(extras[2], ("ForwardX11".to_string(), "no".to_string()));
}

#[test]
fn equals_sign_splits_key_and_value() {
    let (_, hosts) = parse("Host a\n    HostName = example.com\n");
    assert_eq!(hosts[0].hostname, "example.com");
}

#[test]
fn blank_and_comment_lines_inside_block_skipped() {
    let (_, hosts) = parse("Host a\n\n    # just a comment\n    HostName x\n");
    assert_eq!(hosts[0].hostname, "x");
    assert_eq!(hosts[0].extra_options.len(), 0);
}

#[test]
fn wildcard_block_is_dropped() {
    let (_, hosts) = parse("Host *\n    ForwardAgent yes\nHost a\n    HostName x\n");
    assert_eq!(hosts.len(), 1);
    assert_eq!(hosts[0].alias, "a");
}

#[test]
fn unnamed_block_is_dropped() {
    let (_, hosts) = parse("Host   \n    HostName x\n");
    assert_eq!(hosts.len(), 0);
}

#[test]
fn multiple_blocks_in_order() {
    let (_, hosts) = parse("Host a\nHost b\nHost c\n");
    let aliases: Vec<&str> = hosts.iter().map(|h| h.alias.as_str()).collect();
    assert_eq!(aliases, vec!["a", "b", "c"]);
}

#[test]
fn crlf_line_endings_normalized() {
    let (preamble, hosts) = parse("# top\r\nHost a\r\n    HostName x\r\n");
    assert_eq!(preamble, "# top\n");
    assert_eq!(hosts[0].hostname, "x");
}

#[test]
fn final_line_without_newline_still_parsed() {
    let (_, hosts) = parse("Host a\n    HostName x");
    assert_eq!(hosts[0].hostname, "x");
}

#[test]
fn alias_with_inline_comment_stripped() {
    let (_, hosts) = parse("Host box # production\n");
    assert_eq!(hosts[0].alias, "box");
}

#[test]
fn serialize_emits_minimal_block() {
    let host = SshHost {
        alias: "box".to_string(),
        hostname: "10.0.0.1".to_string(),
        port: 22,
        user: String::new(),
        identity_file: String::new(),
        extra_options: Vec::new(),
    };
    let out = serialize("", &vec![host]);
    assert_eq!(out, "Host box\n    HostName 10.0.0.1\n\n");
}

#[test]
fn serialize_emits_all_fields_and_extras() {
    let host = SshHost {
        alias: "web".to_string(),
        hostname: "example.com".to_string(),
        port: 2222,
        user: "deploy".to_string(),
        identity_file: "~/.ssh/id".to_string(),
        extra_options: vec![("ForwardAgent".to_string(), "yes".to_string())],
    };
    let out = serialize("# managed\n", &vec![host]);
    assert_eq!(
        out,
        "# managed\nHost web\n    HostName example.com\n    User deploy\n    Port 2222\n    IdentityFile ~/.ssh/id\n    ForwardAgent yes\n\n"
    );
}

#[test]
fn serialize_appends_newline_to_unterminated_preamble() {
    let out = serialize("# note", &Vec::new());
    assert_eq!(out, "# note\n");
}

#[test]
fn round_trip_preserves_structure() {
    let text = "# prelude\n\nHost alpha\n    HostName a.example\n    Port 2200\n    ProxyJump hop\n\nHost beta\n    User bob\n    HostName b.example\n";
    let (p1, h1) = parse(text);
    let out = serialize(&p1, &h1);
    let (p2, h2) = parse(&out);
    assert_eq!(p1, p2);
    assert_eq!(h1.len(), h2.len());
    for (a, b) in h1.iter().zip(h2.iter()) {
        assert_eq!(a.alias, b.alias);
        assert_eq!(a.hostname, b.hostname);
        assert_eq!(a.port, b.port);
        assert_eq!(a.user, b.user);
        assert_eq!(a.identity_file, b.identity_file);
        assert_eq!(a.extra_options, b.extra_options);
    }
}

#[test]
fn serialize_then_parse_is_idempotent_on_serialized_text() {
    let text = "Host a\n    HostName = x # comment\n";
    let (p1, h1) = parse(text);
    let once = serialize(&p1, &h1);
    let (p2, h2) = parse(&once);
    let twice = serialize(&p2, &h2);
    assert_eq!(once, twice);
}

#[test]
fn strip_inline_comment_respects_quotes() {
    assert_eq!(SshConfigParser::strip_inline_comment("abc # x"), "abc");
    assert_eq!(SshConfigParser::strip_inline_comment("\"a # b\" c"), "\"a # b\" c");
    assert_eq!(SshConfigParser::strip_inline_comment("'a # b' # c"), "'a # b'");
    assert_eq!(SshConfigParser::strip_inline_comment("no comment"), "no comment");
}

#[test]
fn split_key_value_prefers_equals() {
    assert_eq!(
        SshConfigParser::split_key_value("Key value"),
        ("Key".to_string(), "value".to_string())
    );
    assert_eq!(
        SshConfigParser::split_key_value("Key = a b"),
        ("Key".to_string(), "a b".to_string())
    );
    assert_eq!(
        SshConfigParser::split_key_value("solo"),
        (String::new(), String::new())
    );
}
