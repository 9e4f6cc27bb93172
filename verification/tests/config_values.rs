use staticserve::config::{Config, FileListing, Filtering, Http, Https, RateLimit};

fn sample() -> Config {
    Config {
        https: Https {
            enabled: false,
            ip: "0.0.0.0".to_string(),
            port: 443,
            key: "key.pem".to_string(),
            cert: "cert.pem".to_string(),
        },
        http: Http { enabled: true, ip: "127.0.0.1".to_string(), port: 8080 },
        file_listing: FileListing {
            enabled: true,
            dir: "shared".to_string(),
            route: "/files".to_string(),
        },
        not_found_page: "public/404.html".to_string(),
        public_dir: "public".to_string(),
        filtering: Filtering {
            ip_blacklist: vec!["10.0.0.1".to_string()],
            ip_whitelist: vec![],
            rate_limit: RateLimit { per_second: 10, burst_size: 20 },
        },
    }
}

#[test]
fn configuration_holds_its_values() {
    let cfg = sample();
    assert_eq!(cfg.public_dir, "public");
    assert_eq!(cfg.not_found_page, "public/404.html");
    assert!(cfg.http.enabled);
    assert!(!cfg.https.enabled);
    assert_eq!(cfg.http.port, 8080);
    assert_eq!(cfg.file_listing.route, "/files");
    assert_eq!(cfg.filtering.rate_limit.per_second, 10);
    assert_eq!(cfg.filtering.ip_blacklist.len(), 1);
}

#[test]
fn configuration_can_be_cloned_for_each_listener() {
    let cfg = sample();
    let copy = cfg.clone();
    assert_eq!(copy.public_dir, cfg.public_dir);
    assert_eq!(copy.http.port, cfg.http.port);
}
