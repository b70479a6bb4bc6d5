use repomgr::descriptor::{find_release, find_target, update, upsert_target, Descriptor, Release, Target};
use repomgr::request::{channel_from_input, Request};

fn target(platform: &str, payload: &str) -> Target<String> {
    Target { platform: platform.to_string(), payload: payload.to_string() }
}

fn release(version: &str, channel: Option<&str>, targets: Vec<Target<String>>) -> Release<String> {
    Release { version: version.to_string(), channel: channel.map(String::from), target: targets }
}

fn request(version: &str, channel: Option<&str>, platform: &str, payload: &str) -> Request<String> {
    Request {
        repo_path: "/repo".to_string(),
        id: "pkg".to_string(),
        platform: platform.to_string(),
        channel: channel.map(String::from),
        version: version.to_string(),
        payload: payload.to_string(),
    }
}

fn start() -> Descriptor<String> {
    Descriptor { release: vec![release("1.0", None, vec![target("windows", "P1")])] }
}

#[test]
fn same_platform_overwrites_payload() {
    let mut d = start();
    update(&mut d, request("1.0", None, "windows", "P2"));
    assert_eq!(d, Descriptor { release: vec![release("1.0", None, vec![target("windows", "P2")])] });
}

#[test]
fn new_platform_goes_in_front() {
    let mut d = start();
    update(&mut d, request("1.0", None, "mac", "P3"));
    assert_eq!(d.release.len(), 1);
    assert_eq!(d.release[0].target, vec![target("mac", "P3"), target("windows", "P1")]);
}

#[test]
fn new_release_goes_in_front() {
    let mut d = start();
    update(&mut d, request("2.0", Some("beta"), "windows", "P4"));
    assert_eq!(
        d.release,
        vec![
            release("2.0", Some("beta"), vec![target("windows", "P4")]),
            release("1.0", None, vec![target("windows", "P1")]),
        ]
    );
}

#[test]
fn channel_is_compared_exactly() {
    let mut d = start();
    update(&mut d, request("1.0", Some("stable"), "windows", "P5"));
    assert_eq!(d.release.len(), 2);
    assert_eq!(d.release[0], release("1.0", Some("stable"), vec![target("windows", "P5")]));
    assert_eq!(d.release[1], release("1.0", None, vec![target("windows", "P1")]));
}

#[test]
fn update_twice_equals_once() {
    for req in [
        request("1.0", None, "windows", "P2"),
        request("1.0", None, "mac", "P3"),
        request("2.0", Some("beta"), "linux", "P4"),
    ] {
        let mut once = start();
        update(&mut once, req.clone());
        let mut twice = once.clone();
        update(&mut twice, req);
        assert_eq!(once, twice);
    }
}

#[test]
fn updates_keep_entries_distinct() {
    let mut d: Descriptor<String> = Descriptor { release: vec![] };
    let reqs = [
        request("1.0", None, "windows", "A"),
        request("1.0", None, "mac", "B"),
        request("1.0", Some("beta"), "windows", "C"),
        request("1.0", None, "windows", "D"),
        request("2.0", None, "mac", "E"),
        request("1.0", Some("beta"), "windows", "F"),
    ];
    for r in reqs {
        update(&mut d, r);
    }
    assert_eq!(
        d.release,
        vec![
            release("2.0", None, vec![target("mac", "E")]),
            release("1.0", Some("beta"), vec![target("windows", "F")]),
            release("1.0", None, vec![target("mac", "B"), target("windows", "D")]),
        ]
    );
    for (i, a) in d.release.iter().enumerate() {
        for b in &d.release[i + 1..] {
            assert!(!(a.version == b.version && a.channel == b.channel));
        }
        for (j, t) in a.target.iter().enumerate() {
            for u in &a.target[j + 1..] {
                assert_ne!(t.platform, u.platform);
            }
        }
    }
}

#[test]
fn update_of_empty_descriptor() {
    let mut d: Descriptor<String> = Descriptor { release: vec![] };
    update(&mut d, request("0.1", None, "linux", "X"));
    assert_eq!(d.release, vec![release("0.1", None, vec![target("linux", "X")])]);
}

#[test]
fn find_release_takes_first_match() {
    let rs = vec![
        release("1.0", Some("beta"), vec![]),
        release("1.0", None, vec![]),
        release("1.0", None, vec![]),
    ];
    assert_eq!(find_release(&rs, &"1.0".to_string(), &None), Some(1));
    assert_eq!(find_release(&rs, &"1.0".to_string(), &Some("beta".to_string())), Some(0));
    assert_eq!(find_release(&rs, &"2.0".to_string(), &None), None);
}

#[test]
fn find_target_takes_first_match() {
    let ts = vec![target("mac", "1"), target("windows", "2"), target("windows", "3")];
    assert_eq!(find_target(&ts, &"windows".to_string()), Some(1));
    assert_eq!(find_target(&ts, &"linux".to_string()), None);
}

#[test]
fn upsert_target_on_duplicates_changes_first() {
    let mut ts = vec![target("windows", "1"), target("windows", "2")];
    upsert_target(&mut ts, "windows".to_string(), "3".to_string());
    assert_eq!(ts, vec![target("windows", "3"), target("windows", "2")]);
}

#[test]
fn empty_channel_line_is_stable() {
    assert_eq!(channel_from_input(String::new()), None);
    assert_eq!(channel_from_input("beta".to_string()), Some("beta".to_string()));
}
