use staticserve::resolve::{
    resolve_start, resolve_step, resolve_with_fs, Action, FsModel, ResolvedTarget,
};

fn model(files: &[&str], others: &[&str]) -> FsModel {
    FsModel {
        files: files.iter().map(|s| s.to_string()).collect(),
        others: others.iter().map(|s| s.to_string()).collect(),
    }
}

fn found(target: ResolvedTarget) -> Option<String> {
    match target {
        ResolvedTarget::Found(p) => Some(p),
        ResolvedTarget::NotFound => None,
    }
}

#[test]
fn serves_existing_regular_file_exactly() {
    let fs = model(&["/pub/a.txt"], &["/pub"]);
    let r = resolve_with_fs(&fs, "/pub", "a.txt");
    assert_eq!(found(r), Some("/pub/a.txt".to_string()));
}

#[test]
fn trailing_slash_resolves_to_the_same_file() {
    let fs = model(&["/pub/notes"], &["/pub"]);
    let r = resolve_with_fs(&fs, "/pub", "notes/");
    assert_eq!(found(r), Some("/pub/notes".to_string()));
}

#[test]
fn directory_request_serves_its_index() {
    let fs = model(&["/pub/a/b/index.html"], &["/pub", "/pub/a", "/pub/a/b"]);
    let r = resolve_with_fs(&fs, "/pub", "a/b/");
    assert_eq!(found(r), Some("/pub/a/b/index.html".to_string()));
}

#[test]
fn walk_climbs_to_the_nearest_index() {
    let fs = model(&["/pub/a/index.html"], &["/pub", "/pub/a"]);
    let r = resolve_with_fs(&fs, "/pub", "a/b/c");
    assert_eq!(found(r), Some("/pub/a/index.html".to_string()));
}

#[test]
fn exhausted_walk_falls_back_to_not_found() {
    let fs = model(&[], &["/pub"]);
    let r = resolve_with_fs(&fs, "/pub", "zzz");
    assert!(matches!(r, ResolvedTarget::NotFound));
}

#[test]
fn traversal_request_falls_back_to_not_found() {
    let fs = model(&["/pub/secret.txt", "/secret.txt"], &["/pub"]);
    let r = resolve_with_fs(&fs, "/pub", "../secret.txt");
    assert!(matches!(r, ResolvedTarget::NotFound));
}

#[test]
fn direct_file_takes_precedence_over_any_index() {
    let fs = model(&["/pub/a.txt", "/pub/index.html"], &["/pub"]);
    let r = resolve_with_fs(&fs, "/pub", "a.txt");
    assert_eq!(found(r), Some("/pub/a.txt".to_string()));
}

#[test]
fn walk_stops_at_the_root() {
    let fs = model(&["/index.html"], &["/pub"]);
    let r = resolve_with_fs(&fs, "/pub", "x");
    assert!(matches!(r, ResolvedTarget::NotFound));
}

#[test]
fn roots_own_index_is_the_last_candidate() {
    let fs = model(&["/pub/index.html"], &["/pub"]);
    let r = resolve_with_fs(&fs, "/pub", "a/b/c");
    assert_eq!(found(r), Some("/pub/index.html".to_string()));
}

#[test]
fn probes_follow_the_specified_order() {
    let (st, act) = resolve_start("/pub", "a/");
    let p1 = match act {
        Action::ProbeIsFile(p) => p,
        _ => panic!("expected a regular-file probe first"),
    };
    assert_eq!(p1, "/pub/a");
    let (st, act) = resolve_step(st, false);
    let p2 = match act {
        Action::ProbeIsFile(p) => p,
        _ => panic!("expected the as-given probe second"),
    };
    assert_eq!(p2, "/pub/a/");
    let (st, act) = resolve_step(st, false);
    let p3 = match act {
        Action::ProbeExists(p) => p,
        _ => panic!("expected an index probe third"),
    };
    assert_eq!(p3, "/pub/a/index.html");
    let (st, act) = resolve_step(st, false);
    let p4 = match act {
        Action::ProbeExists(p) => p,
        _ => panic!("expected the root's own index probe last"),
    };
    assert_eq!(p4, "/pub/index.html");
    let (_, act) = resolve_step(st, false);
    assert!(matches!(act, Action::ServeNotFound));
}

#[test]
fn not_found_is_served_exactly_once() {
    let fs = model(&[], &["/pub"]);
    let (mut st, mut act) = resolve_start("/pub", "zzz");
    let mut not_found_verdicts: usize = 0;
    let mut serve_verdicts: usize = 0;
    let mut steps: usize = 0;
    loop {
        match act {
            Action::Serve(_) => {
                serve_verdicts += 1;
                break;
            }
            Action::ServeNotFound => {
                not_found_verdicts += 1;
                break;
            }
            Action::ProbeIsFile(p) => {
                let ans = fs.is_file(&p);
                let r = resolve_step(st, ans);
                st = r.0;
                act = r.1;
            }
            Action::ProbeExists(p) => {
                let ans = fs.is_present(&p);
                let r = resolve_step(st, ans);
                st = r.0;
                act = r.1;
            }
        }
        steps += 1;
        assert!(steps < 100, "the machine must terminate");
    }
    assert_eq!(not_found_verdicts, 1);
    assert_eq!(serve_verdicts, 0);
}
