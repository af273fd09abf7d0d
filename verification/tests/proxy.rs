//! The proxy's decisions, its certificates and the capture's.
use rustls::pki_types::ServerName;
use tapgres::addr::parse_socket;
use tapgres::capture::{
    capturing_status, datalink_name, datalink_status, packet_filter, resolve_device, CaptureWatch,
    DeviceChoice, DeviceInfo, Packet,
};
use tapgres::cli::default_tls_dir;
use tapgres::decode::Output;
use tapgres::flow::{ConnTable, Role};
use tapgres::proxy::{
    on_head, on_probe, serving_status, tls_source, upstream_host, upstream_probe,
    upstream_server_name, upstream_uses_tls, ClientStep, ProxyOpts, Relay, TlsSource,
};
use tapgres::state::Metrics;
use tapgres::tls::{
    accept_certificates, accept_identity, accept_key, authority_request, generate_ca_and_leaf,
    generated_status, identity_paths, leaf_request, load_pem_certs, load_pem_key, must_generate,
    trust_status, KeyUsage, PrivateKey,
};

fn opts(upstream: &str) -> ProxyOpts {
    ProxyOpts {
        listen: String::new(),
        upstream: upstream.to_string(),
        tls_dir: String::new(),
        tls_cert: None,
        tls_key: None,
        no_upstream_tls: false,
    }
}

#[test]
fn upstream_server_name_parses_host_forms() {
    let name = |upstream: &str| upstream_server_name(&opts(upstream));
    assert_eq!(name("db.example.com:5432"), name("db.example.com:5432"));
    // Hostname form yields a DNS name; IPv6 brackets are stripped; both parse.
    assert!(matches!(name("db.example.com:5432"), ServerName::DnsName(_)));
    assert!(matches!(name("[::1]:5432"), ServerName::IpAddress(_)));
    assert!(matches!(name("127.0.0.1:5432"), ServerName::IpAddress(_)));
}

#[test]
fn generate_ca_and_leaf_writes_valid_pem_pair() {
    let files = generate_ca_and_leaf().expect("cert generation should succeed").files;
    let names: Vec<&str> = files.iter().map(|f| f.name.as_str()).collect();
    assert_eq!(names, vec!["ca.crt", "ca.key", "server.crt", "server.key"]);
    for file in &files {
        assert!(!file.contents.is_empty(), "{} should be non-empty", file.name);
    }

    // The cert PEMs each yield exactly one certificate, and the server key
    // yields a private key.
    let ca = load_pem_certs("ca.crt", files[0].contents.as_bytes()).unwrap();
    assert_eq!(ca.len(), 1, "ca.crt should contain one certificate");
    let leaf = load_pem_certs("server.crt", files[2].contents.as_bytes()).unwrap();
    assert_eq!(leaf.len(), 1, "server.crt should contain one certificate");
    assert!(
        load_pem_key("server.key", files[3].contents.as_bytes()).is_ok(),
        "server.key should contain a private key"
    );
}

// --- further cases ---------------------------------------------------------------------

#[test]
fn host_is_what_stands_before_the_last_colon() {
    assert_eq!(upstream_host("db:5432"), "db");
    assert_eq!(upstream_host("db"), "db");
    assert_eq!(upstream_host("[::1]:5432"), "::1");
    // A name that is none falls back.
    assert_eq!(
        upstream_server_name(&opts("not a name:1")),
        upstream_server_name(&opts("localhost:1"))
    );
}

#[test]
fn pem_files_without_what_is_needed_are_refused() {
    assert_eq!(
        load_pem_certs("a.pem", b"nothing").unwrap_err(),
        "no certificates found in a.pem"
    );
    assert_eq!(load_pem_key("a.pem", b"").unwrap_err(), "no private key found in a.pem");
    let broken = b"-----BEGIN CERTIFICATE-----\n****\n-----END CERTIFICATE-----\n";
    assert!(load_pem_certs("a.pem", broken).is_err());
    assert!(load_pem_key("a.pem", broken).is_err());
    assert_eq!(accept_certificates("a", Err("e".into())).unwrap_err(), "e");
    assert_eq!(accept_certificates("a", Ok(vec![vec![1]])).unwrap(), vec![vec![1]]);
    assert!(matches!(
        accept_key("a", Ok(Some(PrivateKey::Sec1(vec![1])))),
        Ok(PrivateKey::Sec1(der)) if der == vec![1]
    ));
}

#[test]
fn an_identity_is_its_four_files_or_the_first_error() {
    let pair = |a: &str, b: &str| Ok((a.to_string(), b.to_string()));
    let files = accept_identity(pair("1", "2"), pair("3", "4")).unwrap();
    let laid_out: Vec<(&str, &str)> =
        files.iter().map(|f| (f.name.as_str(), f.contents.as_str())).collect();
    assert_eq!(
        laid_out,
        vec![("ca.crt", "1"), ("ca.key", "2"), ("server.crt", "3"), ("server.key", "4")]
    );
    assert_eq!(accept_identity(pair("1", "2"), Err("leaf".into())).unwrap_err(), "leaf");
    assert_eq!(accept_identity(Err("ca".into()), Err("leaf".into())).unwrap_err(), "ca");
}

#[test]
fn an_issued_identity_holds_fresh_keys() {
    let one = generate_ca_and_leaf().unwrap().files;
    let other = generate_ca_and_leaf().unwrap().files;
    for (a, b) in one.iter().zip(&other) {
        assert_ne!(a.contents, b.contents);
    }
    for key in [&one[1], &one[3]] {
        assert!(matches!(
            load_pem_key(&key.name, key.contents.as_bytes()),
            Ok(PrivateKey::Pkcs8(_))
        ));
    }
}

#[test]
fn the_leaf_is_for_the_local_hosts_and_only_the_authority_signs() {
    let authority = authority_request();
    assert!(authority.authority && authority.hosts.is_empty());
    assert_eq!(authority.common_name, "tapgres CA");
    assert!(matches!(authority.usages[..], [KeyUsage::CertificateSigning]));
    let leaf = leaf_request();
    assert!(!leaf.authority);
    assert_eq!(leaf.common_name, "tapgres");
    assert_eq!(leaf.hosts, vec!["localhost", "127.0.0.1", "::1"]);
}

#[test]
fn an_issued_leaf_names_its_issuer_and_its_hosts() {
    let files = generate_ca_and_leaf().unwrap().files;
    let holds = |der: &[u8], text: &[u8]| der.windows(text.len()).any(|w| w == text);
    let ca = &load_pem_certs("ca.crt", files[0].contents.as_bytes()).unwrap()[0];
    let leaf = &load_pem_certs("server.crt", files[2].contents.as_bytes()).unwrap()[0];
    assert!(holds(ca, b"tapgres CA"));
    assert!(holds(leaf, b"tapgres CA"), "the issuer is the authority");
    assert!(holds(leaf, b"localhost"));
    assert!(holds(leaf, &[127, 0, 0, 1]));
    assert!(!holds(ca, b"localhost"));
}

#[test]
fn pem_keys_are_told_apart_by_their_encoding() {
    let pem = |label: &str| format!("-----BEGIN {label}-----\nAQID\n-----END {label}-----\n");
    let read = |label: &str| load_pem_key("k", pem(label).as_bytes());
    assert!(matches!(read("RSA PRIVATE KEY"), Ok(PrivateKey::Pkcs1(k)) if k == vec![1, 2, 3]));
    assert!(matches!(read("EC PRIVATE KEY"), Ok(PrivateKey::Sec1(k)) if k == vec![1, 2, 3]));
    assert!(matches!(read("PRIVATE KEY"), Ok(PrivateKey::Pkcs8(k)) if k == vec![1, 2, 3]));
    let certs = load_pem_certs("c", pem("CERTIFICATE").as_bytes()).unwrap();
    assert_eq!(certs, vec![vec![1, 2, 3]]);
}

#[test]
fn the_first_bytes_decide_the_client_leg() {
    assert!(matches!(on_probe(Some(0x16)), ClientStep::StartTls { accept: false }));
    assert!(matches!(on_probe(Some(0)), ClientStep::ReadHead));
    assert!(matches!(on_probe(None), ClientStep::ReadHead));
    let head = |last: u8| [0, 0, 0, 8, 0x04, 0xd2, 0x16, last];
    assert!(matches!(on_head(Some(&head(0x2f))), ClientStep::StartTls { accept: true }));
    // A refused GSS request starts over: the next head is read like the first.
    assert!(matches!(on_head(Some(&head(0x30))), ClientStep::RefuseGss));
    assert!(matches!(on_head(Some(&head(0x2f))), ClientStep::StartTls { accept: true }));
    assert!(matches!(on_head(Some(&head(0x2e))), ClientStep::RelayCancel));
    assert!(matches!(on_head(Some(&[0, 0, 0, 22, 0, 3, 0, 0])), ClientStep::Cleartext));
    assert!(matches!(on_head(None), ClientStep::GiveUp));
}

#[test]
fn the_server_is_probed_for_tls() {
    let probe = upstream_probe(&opts("db:1")).unwrap();
    assert_eq!(probe, vec![0x00, 0x00, 0x00, 0x08, 0x04, 0xd2, 0x16, 0x2f]);
    assert!(matches!(on_head(Some(&probe)), ClientStep::StartTls { accept: true }));
    let mut clear = opts("db:1");
    clear.no_upstream_tls = true;
    assert!(upstream_probe(&clear).is_none());
    assert!(upstream_uses_tls(Some(b'S')));
    assert!(!upstream_uses_tls(Some(b'N')));
    assert!(!upstream_uses_tls(None));
}

#[test]
fn certificates_come_from_both_files_or_from_the_directory() {
    let mut o = opts("db:1");
    o.tls_dir = "d".into();
    assert!(matches!(tls_source(&o), Ok(TlsSource::Directory { dir }) if dir == "d"));
    o.tls_cert = Some("c".into());
    assert_eq!(
        tls_source(&o).unwrap_err(),
        "--tls-cert and --tls-key must be given together"
    );
    o.tls_key = Some("k".into());
    assert!(matches!(tls_source(&o), Ok(TlsSource::Files { cert, key }) if cert == "c" && key == "k"));
    assert_eq!(identity_paths("/x").0, "/x/ca.crt");
    assert!(must_generate(true, false, true));
    assert!(!must_generate(true, true, true));
    assert_eq!(generated_status("/x"), "tapgres: generated CA + server certificate in /x");
    assert_eq!(trust_status(None), vec!["tapgres: using user-supplied TLS certificate"]);
    assert_eq!(trust_status(Some("/x/ca.crt"))[2], "  cp /x/ca.crt ~/.postgresql/root.crt");
}

#[test]
fn the_proxy_says_what_it_forwards() {
    let mut o = opts("db:1");
    o.listen = "l:2".into();
    assert_eq!(
        serving_status(&o),
        "tapgres: mitm proxy  l:2  ->  db:1  (client TLS termination, upstream TLS auto-negotiate)"
    );
    o.no_upstream_tls = true;
    assert!(serving_status(&o).ends_with("(client TLS termination, upstream cleartext)"));
}

#[test]
fn relayed_chunks_are_decoded_and_counted() {
    let client = parse_socket("127.0.0.1:40000").unwrap();
    let mut metrics = Metrics::new();
    let conn = metrics.open_connection(client, client, false, 0);
    let mut out: Vec<Output> = Vec::new();
    // The startup's head was taken off the stream already.
    let params = b"user\0tapgres\0\0";
    let total = (8 + params.len()) as u32;
    let mut head = total.to_be_bytes().to_vec();
    head.extend_from_slice(&196_608u32.to_be_bytes());
    let mut to_server = Relay::new(Role::Client, client, conn, &head);
    assert!(!to_server.chunk(&params[..4], &mut metrics, &mut out));
    assert_eq!(metrics.snapshot().msgs_in, 0);
    assert!(!to_server.chunk(&params[4..], &mut metrics, &mut out));
    let mut to_client = Relay::new(Role::Server, client, conn, &[]);
    assert!(!to_client.chunk(&[b'Z', 0, 0, 0, 5, b'I'], &mut metrics, &mut out));
    let snap = metrics.snapshot();
    assert_eq!((snap.msgs_in, snap.bytes_in), (1, total as u64));
    assert_eq!((snap.msgs_out, snap.bytes_out), (1, 6));
    assert!(out[0].rendered().contains("user=tapgres"), "{}", out[0].rendered());
}

#[test]
fn certificates_lie_below_the_configuration_directory() {
    assert_eq!(default_tls_dir(Some("/c"), Some("/h")), "/c/tapgres");
    assert_eq!(default_tls_dir(None, Some("/h")), "/h/.config/tapgres");
    assert_eq!(default_tls_dir(None, None), ".tapgres");
}

#[test]
fn the_loopback_device_is_the_default() {
    let device = |name: &str, loopback: bool| DeviceInfo { name: name.into(), loopback };
    let devices = vec![device("eth0", false), device("lo", true)];
    assert!(matches!(resolve_device(&devices, None), Ok(DeviceChoice::Listed(1))));
    assert!(matches!(resolve_device(&devices, Some("eth0")), Ok(DeviceChoice::Listed(0))));
    assert!(matches!(
        resolve_device(&devices, Some("any")),
        Ok(DeviceChoice::Named(name)) if name == "any"
    ));
    assert_eq!(
        resolve_device(&vec![device("a", false), device("b", false)], None).unwrap_err(),
        "no loopback interface found; pass --interface (available: a, b)"
    );
}

#[test]
fn the_capture_says_what_it_does() {
    assert_eq!(packet_filter(5432), "tcp port 5432 or (vlan and tcp port 5432)");
    assert_eq!(
        capturing_status("lo", 5432),
        "tapgres: capturing on 'lo'  (filter: tcp port 5432)"
    );
    assert_eq!(datalink_status(113), "tapgres: datalink type = 113 (LINUX_SLL (cooked))");
    assert_eq!(datalink_name(101), "RAW (raw IP)");
    assert_eq!(datalink_name(-1), "unknown");
}

#[test]
fn packets_reach_the_connection_table() {
    let mut frame = vec![0u8; 12];
    frame.extend_from_slice(&[0x08, 0x00, 0x45, 0, 0, 40, 0, 0, 0, 0, 64, 6, 0, 0]);
    frame.extend_from_slice(&[10, 0, 0, 1, 10, 0, 0, 2]);
    frame.extend_from_slice(&40000u16.to_be_bytes());
    frame.extend_from_slice(&5432u16.to_be_bytes());
    frame.extend_from_slice(&[0, 0, 0, 7, 0, 0, 0, 0, 0x50, 0x02, 0, 0, 0, 0, 0, 0]);
    let mut watch = CaptureWatch::new();
    let mut table = ConnTable::new();
    let mut metrics = Metrics::new();
    let mut out: Vec<Output> = Vec::new();
    let packet = Packet { data: &frame, caplen: 54, len: 60, dlt: 1 };
    let taken = watch.take_packet(&mut table, packet, 5432, &mut metrics, 0, &mut out);
    assert!(!taken.malformed && !taken.look_at_drops);
    assert_eq!(metrics.snapshot().conns_opened, 1);
    assert!(out[0].rendered().contains("packets truncated to 54 of 60 bytes"));
    assert!(out[1].rendered().contains("=== new connection"));
    // What is no segment changes no connection.
    let noise = Packet { data: &frame[..20], ..packet };
    watch.take_packet(&mut table, noise, 5432, &mut metrics, 0, &mut out);
    assert_eq!((out.len(), metrics.snapshot().conns_opened, watch.since_stats), (2, 1, 2));
}

#[test]
fn truncation_is_warned_of_once_and_drops_by_their_growth() {
    let mut watch = CaptureWatch::new();
    assert_eq!(watch.on_packet(100, 100), None);
    assert_eq!(
        watch.on_packet(96, 1500).as_deref(),
        Some("tapgres: warning — packets truncated to 96 of 1500 bytes; raise --snaplen to avoid gaps in decoding")
    );
    assert_eq!(watch.on_packet(96, 1500), None);
    assert_eq!(watch.report_drops(0), None);
    assert!(watch.report_drops(5).unwrap().contains("kernel dropped 5 packets"));
    assert!(watch.report_drops(7).unwrap().contains("kernel dropped 2 packets"));
    assert_eq!(watch.report_drops(7), None);
    let mut due = 0;
    for _ in 0..20_000 {
        if watch.tick() {
            due += 1;
        }
    }
    assert_eq!(due, 2);
}
