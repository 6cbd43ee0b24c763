use relay_fanout::actor::{Actor, ActorKind};
use relay_fanout::announce::announce_body;
use relay_fanout::fanout::{build_jobs, dedup_targets, plan_targets, Expansion, Job};
use relay_fanout::outcome::{classify, Outcome};
use relay_fanout::post::{Post, Tag};
use relay_fanout::worker::{worker_step, Mailbox, WorkerState, MAILBOX_CAPACITY};

fn post(url: Option<&str>, uri: &str, tags: &[&str]) -> Post {
    Post {
        url: url.map(|u| u.to_string()),
        uri: uri.to_string(),
        tags: Some(tags.iter().map(|t| Tag { name: t.to_string() }).collect()),
    }
}

fn kind_names(kinds: &[ActorKind]) -> Vec<(bool, String)> {
    kinds
        .iter()
        .map(|k| match k {
            ActorKind::InstanceRelay(h) => (true, h.clone()),
            ActorKind::HashtagRelay(t) => (false, t.clone()),
        })
        .collect()
}

#[test]
fn host_is_lowercased_domain() {
    let p = post(Some("https://A.Example/p/1"), "https://a.example/p/1", &[]);
    assert_eq!(p.host(), Some("a.example".to_string()));
}

#[test]
fn host_of_malformed_url_is_absent() {
    let p = post(Some("not a url"), "x", &[]);
    assert_eq!(p.host(), None);
}

#[test]
fn host_of_ip_url_is_absent() {
    let p = post(Some("https://127.0.0.1/p/1"), "x", &[]);
    assert_eq!(p.host(), None);
}

#[test]
fn host_of_reshare_is_absent() {
    let p = post(None, "x", &["a"]);
    assert_eq!(p.host(), None);
}

#[test]
fn tags_keep_order() {
    let p = post(Some("https://a.example/p/1"), "x", &["photography", "Cats"]);
    assert_eq!(
        p.tags(),
        vec!["photography".to_string(), "Cats".to_string()]
    );
}

#[test]
fn missing_tag_list_is_empty() {
    let p = Post {
        url: None,
        uri: "x".to_string(),
        tags: None,
    };
    assert_eq!(p.tags(), Vec::<String>::new());
}

#[test]
fn target_kinds_instance_first_then_tags() {
    let p = post(Some("https://a.example/p/1"), "x", &["one", "two"]);
    let kinds = p.relay_target_kinds();
    assert_eq!(
        kind_names(&kinds),
        vec![
            (true, "a.example".to_string()),
            (false, "one".to_string()),
            (false, "two".to_string()),
        ]
    );
}

#[test]
fn target_kinds_of_reshare_are_empty() {
    let p = post(None, "x", &["one"]);
    assert_eq!(p.relay_target_kinds().len(), 0);
}

#[test]
fn target_kinds_keep_duplicate_tags() {
    let p = post(Some("https://a.example/p/1"), "x", &["one", "one"]);
    assert_eq!(p.relay_target_kinds().len(), 3);
}

#[test]
fn relay_targets_carry_hostname() {
    let p = post(Some("https://a.example/p/1"), "x", &["one"]);
    let targets = p.relay_targets("relay.example");
    assert_eq!(targets.len(), 2);
    assert_eq!(targets[0].host, "relay.example");
    assert_eq!(targets[1].host, "relay.example");
    assert_eq!(
        targets[0].uri(),
        "https://relay.example/instance/a.example"
    );
    assert_eq!(targets[1].uri(), "https://relay.example/tag/one");
}

#[test]
fn actor_uri_and_key_id() {
    let a = Actor {
        host: "relay.example".to_string(),
        kind: ActorKind::HashtagRelay("photography".to_string()),
    };
    assert_eq!(a.uri(), "https://relay.example/tag/photography");
    assert_eq!(a.key_id(), "https://relay.example/tag/photography#key");
    let b = Actor {
        host: "relay.example".to_string(),
        kind: ActorKind::InstanceRelay("a.example".to_string()),
    };
    assert_eq!(b.uri(), "https://relay.example/instance/a.example");
    assert_eq!(b.key_id(), "https://relay.example/instance/a.example#key");
}

#[test]
fn from_tag_builds_hashtag_relay() {
    let k = ActorKind::from_tag("photography");
    assert!(matches!(k, ActorKind::HashtagRelay(ref t) if t == "photography"));
}

#[test]
fn announce_body_exact_text() {
    let body = announce_body("A", "O", "U");
    assert_eq!(
        body,
        "{\"@context\":\"https://www.w3.org/ns/activitystreams\",\"type\":\"Announce\",\
         \"actor\":\"A\",\"to\":[\"https://www.w3.org/ns/activitystreams#Public\"],\
         \"object\":\"O\",\"id\":\"U\"}"
    );
}

#[test]
fn announce_body_round_trips_through_serde() {
    let actor = "https://relay.example/instance/a.example";
    let object = "https://a.example/p/1";
    let id = "https://a.example/p/1";
    let body = announce_body(actor, object, id);
    let v: serde_json::Value = serde_json::from_str(&body).unwrap();
    assert_eq!(v["actor"].as_str().unwrap(), actor);
    assert_eq!(v["object"].as_str().unwrap(), object);
    assert_eq!(v["id"].as_str().unwrap(), id);
    assert_eq!(v["type"].as_str().unwrap(), "Announce");
    assert_eq!(
        v["@context"].as_str().unwrap(),
        "https://www.w3.org/ns/activitystreams"
    );
    assert_eq!(
        v["to"][0].as_str().unwrap(),
        "https://www.w3.org/ns/activitystreams#Public"
    );
}

#[test]
fn announce_body_escapes_special_characters() {
    let tricky = "a\"b\\c\nd";
    let body = announce_body(tricky, "O", tricky);
    let v: serde_json::Value = serde_json::from_str(&body).unwrap();
    assert_eq!(v["actor"].as_str().unwrap(), tricky);
    assert_eq!(v["id"].as_str().unwrap(), tricky);
}

#[test]
fn dedup_targets_keeps_first_occurrence() {
    let mk = |kind: ActorKind| Actor {
        host: "relay.example".to_string(),
        kind,
    };
    let targets = vec![
        mk(ActorKind::InstanceRelay("a.example".to_string())),
        mk(ActorKind::HashtagRelay("one".to_string())),
        mk(ActorKind::HashtagRelay("one".to_string())),
        mk(ActorKind::InstanceRelay("a.example".to_string())),
        mk(ActorKind::HashtagRelay("two".to_string())),
    ];
    let deduped = dedup_targets(&targets);
    assert_eq!(deduped.len(), 3);
    assert_eq!(deduped[0].uri(), "https://relay.example/instance/a.example");
    assert_eq!(deduped[1].uri(), "https://relay.example/tag/one");
    assert_eq!(deduped[2].uri(), "https://relay.example/tag/two");
}

#[test]
fn overlapping_follower_sets_yield_one_job() {
    let inbox = "https://b.example/inbox";
    let expansions = vec![
        Expansion {
            actor: Actor {
                host: "relay.example".to_string(),
                kind: ActorKind::InstanceRelay("a.example".to_string()),
            },
            inboxes: vec![inbox.to_string()],
        },
        Expansion {
            actor: Actor {
                host: "relay.example".to_string(),
                kind: ActorKind::HashtagRelay("photography".to_string()),
            },
            inboxes: vec![inbox.to_string()],
        },
    ];
    let jobs = build_jobs("https://a.example/p/1", "https://a.example/p/1", &expansions);
    assert_eq!(jobs.len(), 1);
    assert_eq!(jobs[0].inbox, inbox);
    assert_eq!(
        jobs[0].actor_uri,
        "https://relay.example/instance/a.example"
    );
    assert_eq!(classify(true, jobs.len()), Outcome::Relay);
}

#[test]
fn fanout_scenario_single_notification() {
    let p = post(
        Some("https://a.example/p/1"),
        "https://a.example/p/1",
        &["photography"],
    );
    let targets = dedup_targets(&p.relay_targets("relay.example"));
    assert_eq!(targets.len(), 2);
    let expansions: Vec<Expansion> = targets
        .into_iter()
        .map(|actor| Expansion {
            actor,
            inboxes: vec!["https://b.example/inbox".to_string()],
        })
        .collect();
    let url = p.url.clone().unwrap();
    let jobs = build_jobs(&url, &p.uri, &expansions);
    assert_eq!(jobs.len(), 1);
    assert_eq!(jobs[0].inbox, "https://b.example/inbox");
    assert_eq!(jobs[0].post_url, "https://a.example/p/1");
    assert_eq!(
        jobs[0].key_id,
        "https://relay.example/instance/a.example#key"
    );
    let v: serde_json::Value = serde_json::from_str(&jobs[0].body).unwrap();
    assert_eq!(
        v["actor"].as_str().unwrap(),
        "https://relay.example/instance/a.example"
    );
    assert_eq!(v["object"].as_str().unwrap(), "https://a.example/p/1");
    assert_eq!(v["id"].as_str().unwrap(), "https://a.example/p/1");
    assert_eq!(classify(true, jobs.len()), Outcome::Relay);
}

#[test]
fn distinct_inboxes_each_get_a_job() {
    let expansions = vec![
        Expansion {
            actor: Actor {
                host: "relay.example".to_string(),
                kind: ActorKind::InstanceRelay("a.example".to_string()),
            },
            inboxes: vec![
                "https://b.example/inbox".to_string(),
                "https://c.example/inbox".to_string(),
            ],
        },
        Expansion {
            actor: Actor {
                host: "relay.example".to_string(),
                kind: ActorKind::HashtagRelay("one".to_string()),
            },
            inboxes: vec![
                "https://c.example/inbox".to_string(),
                "https://d.example/inbox".to_string(),
            ],
        },
    ];
    let jobs = build_jobs("u", "o", &expansions);
    assert_eq!(jobs.len(), 3);
    assert_eq!(jobs[0].inbox, "https://b.example/inbox");
    assert_eq!(jobs[1].inbox, "https://c.example/inbox");
    assert_eq!(jobs[2].inbox, "https://d.example/inbox");
    assert_eq!(jobs[2].actor_uri, "https://relay.example/tag/one");
}

#[test]
fn plan_targets_of_reshare_is_absent() {
    let p = post(None, "https://a.example/p/1", &["photography"]);
    assert!(plan_targets(&p, "relay.example").is_none());
}

#[test]
fn plan_targets_drops_duplicate_identities() {
    let p = post(
        Some("https://a.example/p/1"),
        "https://a.example/p/1",
        &["one", "one", "two"],
    );
    let targets = plan_targets(&p, "relay.example").unwrap();
    assert_eq!(targets.len(), 3);
    assert_eq!(targets[0].uri(), "https://relay.example/instance/a.example");
    assert_eq!(targets[1].uri(), "https://relay.example/tag/one");
    assert_eq!(targets[2].uri(), "https://relay.example/tag/two");
}

#[test]
fn skip_outcome_for_reshare() {
    let p = post(None, "https://a.example/p/1", &["photography"]);
    let kinds = p.relay_target_kinds();
    assert_eq!(kinds.len(), 0);
    assert_eq!(classify(false, 0), Outcome::Skip);
}

#[test]
fn no_relay_outcome_when_no_inboxes() {
    let expansions = vec![Expansion {
        actor: Actor {
            host: "relay.example".to_string(),
            kind: ActorKind::InstanceRelay("a.example".to_string()),
        },
        inboxes: Vec::new(),
    }];
    let jobs = build_jobs("u", "o", &expansions);
    assert_eq!(jobs.len(), 0);
    assert_eq!(classify(true, jobs.len()), Outcome::NoRelay);
}

fn job_to(inbox: &str) -> Job {
    Job {
        inbox: inbox.to_string(),
        actor_uri: "https://relay.example/tag/one".to_string(),
        key_id: "https://relay.example/tag/one#key".to_string(),
        body: "{}".to_string(),
        post_url: "https://a.example/p/1".to_string(),
    }
}

#[test]
fn backoff_refuses_jobs_within_cooldown() {
    let mut w = WorkerState::new();
    assert!(w.on_job(1000));
    w.on_result(false);
    w.on_result(false);
    w.on_result(false);
    assert_eq!(w.errors, 3);
    // three consecutive failures: 30 s cool-down from the last attempt
    assert!(w.should_skip(1000 + 29_999));
    assert!(!w.should_skip(1000 + 30_000));
    assert!(!w.on_job(1000 + 10_000));
    assert_eq!(w.errors, 3);
}

#[test]
fn success_resets_failure_count() {
    let mut w = WorkerState::new();
    assert!(w.on_job(500));
    w.on_result(false);
    assert!(w.should_skip(500));
    assert!(w.on_job(500 + 10_000));
    w.on_result(true);
    assert_eq!(w.errors, 0);
    assert!(!w.should_skip(500 + 10_001));
}

#[test]
fn fresh_worker_attempts_first_job() {
    let mut w = WorkerState::new();
    assert!(!w.should_skip(0));
    assert!(w.on_job(0));
    assert_eq!(w.last_attempt, Some(0));
}

#[test]
fn mailbox_drops_excess_of_a_burst() {
    let mut m = Mailbox::new();
    for i in 0..MAILBOX_CAPACITY {
        assert!(m.try_submit(job_to(&format!("https://inbox{}.example/", i))));
    }
    assert_eq!(m.len(), MAILBOX_CAPACITY);
    assert!(!m.try_submit(job_to("https://late.example/")));
    assert!(!m.try_submit(job_to("https://later.example/")));
    assert_eq!(m.len(), MAILBOX_CAPACITY);
    let first = m.take_next().unwrap();
    assert_eq!(first.inbox, "https://inbox0.example/");
}

#[test]
fn mailbox_hands_jobs_out_in_submission_order() {
    let mut m = Mailbox::new();
    assert!(m.try_submit(job_to("https://one.example/")));
    assert!(m.try_submit(job_to("https://two.example/")));
    assert!(m.try_submit(job_to("https://three.example/")));
    assert_eq!(m.take_next().unwrap().inbox, "https://one.example/");
    assert_eq!(m.take_next().unwrap().inbox, "https://two.example/");
    assert_eq!(m.take_next().unwrap().inbox, "https://three.example/");
    assert!(m.take_next().is_none());
}

#[test]
fn worker_step_pops_and_gates() {
    let mut st = WorkerState::new();
    let mut m = Mailbox::new();
    assert!(m.try_submit(job_to("https://one.example/")));
    assert!(m.try_submit(job_to("https://two.example/")));
    let j = worker_step(&mut st, &mut m, 100).unwrap();
    assert_eq!(j.inbox, "https://one.example/");
    st.on_result(false);
    // the next job arrives within the 10 s cool-down and is dropped
    assert!(worker_step(&mut st, &mut m, 5_000).is_none());
    assert_eq!(m.len(), 0);
    // an empty mailbox yields nothing
    assert!(worker_step(&mut st, &mut m, 60_000).is_none());
}

#[test]
fn classify_matches_counter_actions() {
    assert_eq!(classify(false, 0), Outcome::Skip);
    assert_eq!(classify(false, 5), Outcome::Skip);
    assert_eq!(classify(true, 0), Outcome::NoRelay);
    assert_eq!(classify(true, 1), Outcome::Relay);
    assert_eq!(classify(true, 7), Outcome::Relay);
}
