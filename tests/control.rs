use nix_deployments::controller::{Controller, WebhookReply};
use nix_deployments::types::{AppError, ParsedWebhook};
use nix_deployments::webhook::{find_string, webhook_parse, Json, JsonMember, Pattern};

const HASH: &str = "0123456789abcdef0123456789abcdef01234567";

fn member(key: &str, value: Json) -> JsonMember {
    JsonMember { key: key.to_string(), value }
}

fn sample() -> Json {
    Json::Object(vec![member(
        "wrapper",
        Json::Object(vec![
            member("after", Json::Str(HASH.to_string())),
            member(
                "repo",
                Json::Object(vec![member("url", Json::Str("ssh://git@host/org/repo.git".to_string()))]),
            ),
        ]),
    )])
}

#[test]
fn webhook_names_hash_and_repo() {
    let w = webhook_parse(&sample()).unwrap();
    assert_eq!(w.hash, HASH);
    assert_eq!(w.repository, "ssh://git@host/org/repo.git");
}

#[test]
fn webhook_without_repo_is_refused() {
    let j = Json::Object(vec![member("after", Json::Str(HASH.to_string()))]);
    assert!(matches!(webhook_parse(&j), Err(AppError::ParsingModuleError(_))));
    let mut c = Controller::new();
    let r = c.on_webhook(&j);
    assert_eq!(r, WebhookReply::BadRequest);
    assert_eq!(r.status_code(), 400);
    assert!(!c.running);
}

#[test]
fn webhook_without_hash_is_refused() {
    let j = Json::Array(vec![Json::Str("ssh://git@host/org/repo.git".to_string()), Json::Number("7".to_string())]);
    assert!(matches!(webhook_parse(&j), Err(AppError::ParsingModuleError(_))));
}

#[test]
fn search_is_depth_first_in_order() {
    let j = Json::Array(vec![
        Json::Null,
        Json::Object(vec![member("deep", Json::Array(vec![Json::Str("ssh://a/first.git".to_string())]))]),
        Json::Str("ssh://b/second.git".to_string()),
    ]);
    assert_eq!(find_string(&j, Pattern::RepoUrl), Some("ssh://a/first.git".to_string()));
    assert_eq!(find_string(&j, Pattern::CommitHash), None);
    let upper = Json::Str("0123456789ABCDEF0123456789ABCDEF01234567".to_string());
    assert!(find_string(&upper, Pattern::CommitHash).is_some());
    let short = Json::Str("0123456789abcdef".to_string());
    assert!(find_string(&short, Pattern::CommitHash).is_none());
}

#[test]
fn overload_gets_too_many_requests() {
    let mut c = Controller::new();
    assert_eq!(c.health_target(), None);
    let first = c.on_webhook(&sample());
    assert_eq!(first.status_code(), 200);
    let expected = ParsedWebhook {
        repository: "ssh://git@host/org/repo.git".to_string(),
        hash: HASH.to_string(),
    };
    assert_eq!(first, WebhookReply::Accepted(expected.clone()));
    assert!(c.running);
    let other = Json::Object(vec![
        member("after", Json::Str("ffffffffffffffffffffffffffffffffffffffff".to_string())),
        member("url", Json::Str("ssh://git@host/org/other.git".to_string())),
    ]);
    let second = c.on_webhook(&other);
    assert_eq!(second, WebhookReply::TooManyRequests);
    assert_eq!(second.status_code(), 429);
    assert_eq!(c.last_seen, Some(expected.clone()));
    c.on_pipeline_end();
    assert!(!c.running);
    assert_eq!(c.health_target(), Some(expected));
    let third = c.on_webhook(&other);
    assert!(matches!(third, WebhookReply::Accepted(ref w) if w.repository == "ssh://git@host/org/other.git"));
}
