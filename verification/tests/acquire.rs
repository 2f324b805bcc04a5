use file_transfer::acquire::{get_file, get_ip, Asked};
use file_transfer::endpoint::{Endpoint, Host};

fn v4(octets: u32, port: u16) -> Endpoint {
    Endpoint { host: Host::V4 { octets }, port }
}

#[test]
fn resolved_address_is_accepted() {
    let only = v4(0x7f000001, 526);
    assert_eq!(get_ip(Ok(vec![only])), Asked::Accepted(only));
}

#[test]
fn first_of_several_addresses_is_used() {
    let first = Endpoint {
        host: Host::V6 { segments: 1, flowinfo: 0, scope_id: 0 },
        port: 526,
    };
    let second = v4(0x7f000001, 526);
    let third = v4(0x0a000001, 80);
    assert_eq!(get_ip(Ok(vec![first, second, third])), Asked::Accepted(first));
    assert_eq!(get_ip(Ok(vec![second, first])), Asked::Accepted(second));
}

#[test]
fn unresolved_address_is_refused_with_its_error() {
    let asked = get_ip(Err("invalid socket address".to_string()));
    assert_eq!(asked, Asked::Refused { complaint: "invalid socket address".to_string() });
}

#[test]
fn opened_file_is_accepted() {
    let asked: Asked<u32> = get_file(Ok(17));
    assert_eq!(asked, Asked::Accepted(17));
}

#[test]
fn unopened_file_is_refused_with_its_error() {
    let asked: Asked<u32> = get_file(Err("No such file or directory (os error 2)".to_string()));
    assert_eq!(
        asked,
        Asked::Refused { complaint: "No such file or directory (os error 2)".to_string() }
    );
}

#[test]
fn address_is_asked_again_once_for_each_failure() {
    let wanted = v4(0xc0a80001, 526);
    let attempts: Vec<Result<Vec<Endpoint>, String>> = vec![
        Err("first".to_string()),
        Err("second".to_string()),
        Err("third".to_string()),
        Ok(vec![wanted, v4(1, 1)]),
        Ok(vec![v4(2, 2)]),
    ];
    let mut complaints: Vec<String> = Vec::new();
    let mut tries: usize = 0;
    let mut chosen: Option<Endpoint> = None;
    for attempt in attempts {
        tries += 1;
        match get_ip(attempt) {
            Asked::Accepted(endpoint) => {
                chosen = Some(endpoint);
                break;
            }
            Asked::Refused { complaint } => complaints.push(complaint),
        }
    }
    assert_eq!(complaints, vec!["first", "second", "third"]);
    assert_eq!(tries, 4);
    assert_eq!(chosen, Some(wanted));
}

#[test]
fn address_that_resolves_at_once_is_not_asked_again() {
    let attempts: Vec<Result<Vec<Endpoint>, String>> =
        vec![Ok(vec![v4(5, 526)]), Err("never seen".to_string())];
    let mut reprompts: usize = 0;
    let mut chosen: Option<Endpoint> = None;
    for attempt in attempts {
        match get_ip(attempt) {
            Asked::Accepted(endpoint) => {
                chosen = Some(endpoint);
                break;
            }
            Asked::Refused { .. } => reprompts += 1,
        }
    }
    assert_eq!(reprompts, 0);
    assert_eq!(chosen, Some(v4(5, 526)));
}

#[test]
fn file_is_asked_again_once_for_each_failure() {
    let attempts: Vec<Result<&str, String>> = vec![
        Err("No such file or directory (os error 2)".to_string()),
        Err("Permission denied (os error 13)".to_string()),
        Ok("handle"),
        Err("never seen".to_string()),
    ];
    let mut complaints: Vec<String> = Vec::new();
    let mut tries: usize = 0;
    let mut opened: Option<&str> = None;
    for attempt in attempts {
        tries += 1;
        match get_file(attempt) {
            Asked::Accepted(file) => {
                opened = Some(file);
                break;
            }
            Asked::Refused { complaint } => complaints.push(complaint),
        }
    }
    assert_eq!(
        complaints,
        vec!["No such file or directory (os error 2)", "Permission denied (os error 13)"]
    );
    assert_eq!(tries, 3);
    assert_eq!(opened, Some("handle"));
}

#[test]
fn file_that_opens_at_once_is_not_asked_again() {
    let attempts: Vec<Result<u8, String>> = vec![Ok(1), Ok(2)];
    let mut reprompts: usize = 0;
    let mut opened: Option<u8> = None;
    for attempt in attempts {
        match get_file(attempt) {
            Asked::Accepted(file) => {
                opened = Some(file);
                break;
            }
            Asked::Refused { .. } => reprompts += 1,
        }
    }
    assert_eq!(reprompts, 0);
    assert_eq!(opened, Some(1));
}

#[test]
fn resolution_without_an_address_is_refused() {
    let asked = get_ip(Ok(Vec::new()));
    assert_eq!(asked, Asked::Refused { complaint: "no address found".to_string() });
}

#[test]
fn address_is_asked_again_after_a_resolution_without_an_address() {
    let wanted = v4(0x0a000002, 526);
    let attempts: Vec<Result<Vec<Endpoint>, String>> =
        vec![Ok(Vec::new()), Ok(vec![wanted]), Ok(vec![v4(9, 9)])];
    let mut complaints: Vec<String> = Vec::new();
    let mut tries: usize = 0;
    let mut chosen: Option<Endpoint> = None;
    for attempt in attempts {
        tries += 1;
        match get_ip(attempt) {
            Asked::Accepted(endpoint) => {
                chosen = Some(endpoint);
                break;
            }
            Asked::Refused { complaint } => complaints.push(complaint),
        }
    }
    assert_eq!(complaints, vec!["no address found"]);
    assert_eq!(tries, 2);
    assert_eq!(chosen, Some(wanted));
}

#[test]
fn failed_and_empty_resolutions_are_both_asked_again() {
    let wanted = v4(0xc0a80101, 526);
    let attempts: Vec<Result<Vec<Endpoint>, String>> = vec![
        Err("invalid socket address".to_string()),
        Ok(Vec::new()),
        Err("failed to lookup address information".to_string()),
        Ok(Vec::new()),
        Ok(vec![wanted, v4(1, 1)]),
    ];
    let mut complaints: Vec<String> = Vec::new();
    let mut chosen: Option<Endpoint> = None;
    for attempt in attempts {
        match get_ip(attempt) {
            Asked::Accepted(endpoint) => {
                chosen = Some(endpoint);
                break;
            }
            Asked::Refused { complaint } => complaints.push(complaint),
        }
    }
    assert_eq!(
        complaints,
        vec![
            "invalid socket address",
            "no address found",
            "failed to lookup address information",
            "no address found",
        ]
    );
    assert_eq!(chosen, Some(wanted));
}
