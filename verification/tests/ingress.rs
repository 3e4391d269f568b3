use cidr::Ipv4Cidr;
use tng_ingress::ingress::{
    AddIngressArgs, CaptureDstError, CommonArgs, IngressMode, IngressNetfilterArgs,
    IngressNetfilterCaptureDst, IngressNetfilterCaptureDstArgs, OHttpArgs, PathRewrite,
};

fn args(host: Option<&str>, ipset: Option<&str>, port: Option<u16>) -> IngressNetfilterCaptureDstArgs {
    IngressNetfilterCaptureDstArgs {
        host: host.map(|h| h.parse::<Ipv4Cidr>().expect("host should be a network")),
        ipset: ipset.map(|s| s.to_owned()),
        port,
    }
}

#[test]
fn test_deserialize_netfilter_capture_dst() {
    assert!(IngressNetfilterCaptureDst::try_from(args(Some("10.1.1.0/24"), None, Some(30002))).is_ok());

    assert!(IngressNetfilterCaptureDst::try_from(args(None, Some("ipset_name"), Some(30002))).is_ok());

    assert!(IngressNetfilterCaptureDst::try_from(args(None, None, Some(30002))).is_ok());

    assert!(IngressNetfilterCaptureDst::try_from(args(
        Some("10.1.1.0/24"),
        Some("ipset_name"),
        Some(30002)
    ))
    .is_err());

    assert!(
        IngressNetfilterCaptureDst::try_from(args(Some("10.1.1.0/24"), Some("ipset_name"), None)).is_err()
    );

    assert!(IngressNetfilterCaptureDst::try_from(args(None, None, None)).is_err());
}

#[test]
fn every_destination_keeps_what_was_written() {
    let network: Ipv4Cidr = "10.1.1.0/24".parse().unwrap();
    match IngressNetfilterCaptureDst::try_from(args(Some("10.1.1.0/24"), None, None)) {
        Ok(IngressNetfilterCaptureDst::HostOnly { host }) => assert_eq!(host, network),
        other => panic!("{other:?}"),
    }
    match IngressNetfilterCaptureDst::try_from(args(Some("10.1.1.0/24"), None, Some(30002))) {
        Ok(IngressNetfilterCaptureDst::HostAndPort { host, port }) => {
            assert_eq!((host, port), (network, 30002))
        }
        other => panic!("{other:?}"),
    }
    match IngressNetfilterCaptureDst::try_from(args(None, Some("ipset_name"), None)) {
        Ok(IngressNetfilterCaptureDst::IpSetOnly { ipset }) => assert_eq!(ipset, "ipset_name"),
        other => panic!("{other:?}"),
    }
    match IngressNetfilterCaptureDst::try_from(args(None, Some("ipset_name"), Some(30002))) {
        Ok(IngressNetfilterCaptureDst::IpSetAndPort { ipset, port }) => {
            assert_eq!((ipset.as_str(), port), ("ipset_name", 30002))
        }
        other => panic!("{other:?}"),
    }
    match IngressNetfilterCaptureDst::try_from(args(None, None, Some(30001))) {
        Ok(IngressNetfilterCaptureDst::PortOnly { port }) => assert_eq!(port, 30001),
        other => panic!("{other:?}"),
    }
}

#[test]
fn refused_destinations_say_why() {
    let nothing = IngressNetfilterCaptureDst::try_from(args(None, None, None)).unwrap_err();
    assert_eq!(nothing, CaptureDstError::NothingSpecified);
    assert_eq!(nothing.message(), "one of host, ipset, port must be specified");

    for port in [None, Some(30002)] {
        let both =
            IngressNetfilterCaptureDst::try_from(args(Some("127.0.0.1"), Some("ipset_name"), port))
                .unwrap_err();
        assert_eq!(both, CaptureDstError::HostAndIpSet);
        assert_eq!(both.message(), "Only one of host or ipset can be specified");
    }
}

#[test]
fn capture_hosts_are_networks() {
    for (text, shown) in [
        ("127.0.0.1", "127.0.0.1"),
        ("127.0.0.1/32", "127.0.0.1"),
        ("10.1.1.0/24", "10.1.1.0/24"),
    ] {
        let host: Ipv4Cidr =
            serde_json::from_value(serde_json::Value::String(text.to_owned())).unwrap();
        assert_eq!(host.to_string(), shown);
        assert_eq!(serde_json::from_str::<Ipv4Cidr>(&serde_json::to_string(&host).unwrap()).unwrap(), host);
    }
    assert!(
        serde_json::from_value::<Ipv4Cidr>(serde_json::Value::String("10.1.1.1/24".to_owned())).is_err()
    );
}

#[test]
fn configurations_compare_by_value() {
    let config = AddIngressArgs::<(String, u16), bool> {
        ingress_mode: IngressMode::Netfilter(IngressNetfilterArgs {
            capture_dst: vec![args(None, None, Some(30001)), args(Some("127.0.0.1"), None, None)],
            capture_cgroup: vec![],
            nocapture_cgroup: vec![],
            listen_port: Some(50000),
            so_mark: None,
        }),
        common: CommonArgs { ohttp: None, web_page_inject: false, ra_args: true },
    };
    let mut other = config.clone();
    assert_eq!(config, other);
    other.common.web_page_inject = true;
    assert_ne!(config, other);
}

#[test]
fn settings_are_empty_by_default() {
    let ohttp = OHttpArgs::default();
    assert!(ohttp.path_rewrites.is_empty());
    assert!(ohttp.forward_headers.is_empty());
    let rewrite = PathRewrite::default();
    assert_eq!((rewrite.match_regex.as_str(), rewrite.substitution.as_str()), ("", ""));
}
