use firemage_runtime::addressing::ipv4;
use firemage_runtime::assets::{BootFile, FileEncoding};
use firemage_runtime::seed::{
    Environment, SeedNetwork, guest_proxy_port, network_script_text, proxy_url_text, push_shell_quoted,
    seed_environment, seed_file_list, set_proxy_environment,
};

#[test]
fn environment_values_are_quoted_literally_in_name_order() {
    let mut env = Environment::new();
    assert!(env.is_empty());
    env.set("ZED".to_string(), "last".to_string());
    env.set("ALPHA".to_string(), "it's $HOME `id` \\n".to_string());
    env.set("ZED".to_string(), "replaced".to_string());
    assert!(!env.is_empty());
    assert_eq!(
        env.script(),
        "export ALPHA='it'\"'\"'s $HOME `id` \\n'\nexport ZED='replaced'\n"
    );
}

#[test]
fn shell_quoting_wraps_single_quotes() {
    let mut s = String::from("x=");
    push_shell_quoted(&mut s, "a'b");
    assert_eq!(s, "x='a'\"'\"'b'");
    let mut e = String::new();
    push_shell_quoted(&mut e, "");
    assert_eq!(e, "''");
}

#[test]
fn proxy_environment_points_at_the_gateway() {
    assert_eq!(guest_proxy_port(Some(8080), 3128), 8080);
    assert_eq!(guest_proxy_port(None, 3128), 3128);
    assert_eq!(proxy_url_text(ipv4(10, 0, 0, 1), 3128), "http://10.0.0.1:3128");
    let mut env = Environment::new();
    env.set("HOME".to_string(), "/root".to_string());
    env.set("http_proxy".to_string(), "http://elsewhere".to_string());
    set_proxy_environment(&mut env, ipv4(10, 0, 0, 1), 3128);
    let script = env.script();
    assert!(script.contains("export http_proxy='http://10.0.0.1:3128'\n"));
    assert!(script.contains("export HTTPS_PROXY='http://10.0.0.1:3128'\n"));
    assert!(script.contains("export NO_PROXY=''\n"));
    assert!(script.contains("export SSL_CERT_FILE='/firemage/input/firemage/ca.pem'\n"));
    assert!(script.contains("export HOME='/root'\n"));
    assert!(!script.contains("elsewhere"));
}

#[test]
fn network_script_configures_eth0() {
    assert_eq!(
        network_script_text(ipv4(10, 0, 0, 2), 24, ipv4(10, 0, 0, 1)),
        "ip link set eth0 up\nip addr flush dev eth0\nip addr add 10.0.0.2/24 dev eth0\nip route replace default via 10.0.0.1 dev eth0\n"
    );
}

fn own_file(path: &str) -> BootFile {
    BootFile {
        path: path.to_string(),
        content: "data".to_string(),
        encoding: FileEncoding::Utf8,
        destination: Some("/etc/x".to_string()),
        uid: 1,
        gid: 1,
        mode: 0o644,
    }
}

#[test]
fn seeds_list_given_files_then_generated_ones() {
    let values = vec![
        ("B".to_string(), "1".to_string()),
        ("A".to_string(), "2".to_string()),
        ("B".to_string(), "3".to_string()),
        ("http_proxy".to_string(), "mine".to_string()),
    ];
    let plain = seed_environment(&values, None);
    assert_eq!(plain.script(), "export A='2'\nexport B='3'\nexport http_proxy='mine'\n");
    let proxied = seed_environment(&values, Some((ipv4(10, 0, 0, 1), 3128)));
    assert!(proxied.script().contains("export http_proxy='http://10.0.0.1:3128'\n"));
    let network = SeedNetwork {
        address: ipv4(10, 0, 0, 2),
        prefix_len: 24,
        gateway: ipv4(10, 0, 0, 1),
        restricted: Some((3128, "PEM".to_string())),
    };
    let list = seed_file_list(
        vec![own_file("a")],
        None,
        vec![own_file("attachment")],
        vec![own_file("secret")],
        Some("echo hi\n".to_string()),
        Some(network),
        &proxied,
    );
    let paths: Vec<&str> = list.iter().map(|f| f.path.as_str()).collect();
    assert_eq!(
        paths,
        vec![
            "a",
            "attachment",
            "secret",
            "firemage/workload.sh",
            "firemage/network.sh",
            "firemage/ca.pem",
            "firemage/environment.sh"
        ]
    );
    assert_eq!(list[5].content, "PEM");
    assert_eq!(list[6].content, proxied.script());
    assert_eq!(list[6].mode, 0o600);
    let bare = seed_file_list(Vec::new(), None, Vec::new(), Vec::new(), None, None, &Environment::new());
    assert!(bare.is_empty());
}
