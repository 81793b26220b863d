use dit::chart::generate_sparkline;
use dit::github::{find_existing_comment, marked_body, plan_publish, Comment, GitHubContext, PublishAction};
use dit::inspect::{clean_command, parse_image_ref, snapshot_from_inspection, HistoryEntry, ImageInfo};
use dit::listing::{match_compose_images, select_image_tags};
use dit::model::Timestamp;
use dit::size::{parse_size, scale_decimal, split_size_unit, ParseSizeError, GIB, KIB, MIB};
use dit::text::truncate;

#[test]
fn parse_size_units() {
    assert_eq!(parse_size("1.5GB"), Ok(1_610_612_736));
    assert_eq!(parse_size("500m"), Ok(500 * 1024 * 1024));
    assert_eq!(parse_size("1024"), Ok(1024));
    assert_eq!(parse_size(" 2 kb "), Ok(2048));
    assert_eq!(parse_size("3G"), Ok(3 * GIB));
    assert_eq!(parse_size("1.1M"), Ok(1_153_433));
    assert_eq!(parse_size(".5K"), Ok(512));
}

#[test]
fn parse_size_rejects_garbage() {
    assert_eq!(parse_size("abc"), Err(ParseSizeError::InvalidNumber));
    assert_eq!(parse_size(""), Err(ParseSizeError::InvalidNumber));
    assert_eq!(parse_size("MB"), Err(ParseSizeError::InvalidNumber));
    assert_eq!(parse_size("1.2.3"), Err(ParseSizeError::InvalidNumber));
}

#[test]
fn parse_size_edges() {
    assert_eq!(parse_size("-5M"), Ok(0));
    assert_eq!(parse_size("+5K"), Ok(5 * KIB));
    assert_eq!(parse_size("99999999999999999999G"), Ok(u64::MAX));
}

#[test]
fn size_unit_split_and_scale() {
    assert_eq!(split_size_unit("12MB"), ("12", MIB));
    assert_eq!(split_size_unit("7K"), ("7", KIB));
    assert_eq!(split_size_unit("7"), ("7", 1));
    assert_eq!(scale_decimal("0.25", 1000), Ok(250));
    assert_eq!(scale_decimal("1.999", 10), Ok(19));
    assert_eq!(scale_decimal("x", 10), Err(ParseSizeError::InvalidNumber));
}

#[test]
fn commands_are_cleaned() {
    assert_eq!(clean_command("/bin/sh -c #(nop)  ENV A=1"), "ENV A=1");
    assert_eq!(clean_command("/bin/sh -c #(nop) WORKDIR /app"), "WORKDIR /app");
    assert_eq!(clean_command("/bin/sh -c apt-get update"), "RUN apt-get update");
    assert_eq!(clean_command("RUN /bin/sh -c make # buildkit"), "RUN make");
    assert_eq!(clean_command("   "), "<layer>");
    let long = "x".repeat(130);
    let cleaned = clean_command(&long);
    assert_eq!(cleaned, format!("{}...", "x".repeat(117)));
}

#[test]
fn truncate_cuts_with_ellipsis() {
    assert_eq!(truncate("short", 50), "short");
    assert_eq!(truncate("abcdefghij", 8), "abcde...");
    assert_eq!(truncate("abcdefgh", 8), "abcdefgh");
}

#[test]
fn image_refs_split() {
    assert_eq!(parse_image_ref("nginx:1.25"), ("nginx".to_string(), "1.25".to_string()));
    assert_eq!(parse_image_ref("nginx"), ("nginx".to_string(), "latest".to_string()));
    assert_eq!(parse_image_ref("a:b:c"), ("a".to_string(), "b".to_string()));
}

#[test]
fn snapshot_layers_oldest_first() {
    let now = Timestamp { secs: 99, nanos: 1 };
    let history = vec![
        HistoryEntry { id: "sha256:top".to_string(), created_by: "/bin/sh -c make".to_string(), size: 30, created: 2000 },
        HistoryEntry { id: String::new(), created_by: String::new(), size: 0, created: 0 },
        HistoryEntry { id: "sha256:base".to_string(), created_by: "/bin/sh -c #(nop) ADD file".to_string(), size: 70, created: 1000 },
    ];
    let info = ImageInfo {
        size: Some(100),
        os: None,
        architecture: Some("arm64".to_string()),
        repo_digests: Some(vec!["app@sha256:1".to_string(), "app@sha256:2".to_string()]),
    };
    let s = snapshot_from_inspection("app:2.0", info, &history, now);
    assert_eq!(s.image, "app");
    assert_eq!(s.tag, Some("2.0".to_string()));
    assert_eq!(s.total_size, 100);
    assert_eq!(s.os, "linux");
    assert_eq!(s.arch, "arm64");
    assert_eq!(s.digest, Some("app@sha256:1".to_string()));
    assert_eq!(s.layer_count, 3);
    assert_eq!(s.layers[0].digest, "sha256:base");
    assert_eq!(s.layers[0].command, "ADD file");
    assert_eq!(s.layers[0].created, Timestamp { secs: 1000, nanos: 0 });
    assert_eq!(s.layers[1].digest, "<missing>");
    assert_eq!(s.layers[1].command, "<unknown>");
    assert_eq!(s.layers[1].created, now);
    assert_eq!(s.layers[2].command, "RUN make");
    assert_eq!(s.timestamp, now);
    assert_eq!(s.commit_sha, "");
}

#[test]
fn pr_context_and_comment_marker() {
    let ctx = GitHubContext {
        token: "t".to_string(),
        repo: "o/r".to_string(),
        pr_number: Some(7),
        sha: "s".to_string(),
        ref_name: "r".to_string(),
    };
    assert!(ctx.is_pr());
    let none = GitHubContext { pr_number: None, ..ctx };
    assert!(!none.is_pr());
    assert_eq!(marked_body("hello"), "<!-- dit-report -->\nhello");
}

#[test]
fn publish_updates_marked_comment() {
    let comments = vec![
        Comment { id: 1, body: "looks good".to_string() },
        Comment { id: 2, body: "<!-- dit-report -->\nold".to_string() },
        Comment { id: 3, body: "<!-- dit-report -->\nolder".to_string() },
    ];
    assert_eq!(find_existing_comment(&comments), Some(2));
    assert_eq!(
        plan_publish(9, &comments, "new"),
        PublishAction::Update { comment_id: 2, body: "<!-- dit-report -->\nnew".to_string() }
    );
    let plain = vec![Comment { id: 1, body: "hi".to_string() }];
    assert_eq!(
        plan_publish(9, &plain, "new"),
        PublishAction::Create { pr_number: 9, body: "<!-- dit-report -->\nnew".to_string() }
    );
}

#[test]
fn image_tags_filtered_and_sorted() {
    let tags = vec![
        vec!["web:1".to_string(), "Web:2".to_string()],
        vec!["<none>:<none>".to_string()],
        vec!["api:latest".to_string()],
    ];
    assert_eq!(
        select_image_tags(&tags, None),
        vec!["Web:2".to_string(), "api:latest".to_string(), "web:1".to_string()]
    );
    assert_eq!(select_image_tags(&tags, Some("WEB")), vec!["Web:2".to_string(), "web:1".to_string()]);
}

#[test]
fn compose_images_matched_per_service() {
    let images = vec![
        "shop_api:latest".to_string(),
        "Shop-Web:latest".to_string(),
        "other:1".to_string(),
        "shop/worker:2".to_string(),
    ];
    let services = vec!["api".to_string(), "web".to_string(), "worker".to_string()];
    assert_eq!(
        match_compose_images(&images, "shop", &services),
        vec!["shop_api:latest".to_string(), "Shop-Web:latest".to_string(), "shop/worker:2".to_string()]
    );
}

fn sized(total: u64) -> dit::model::ImageSnapshot {
    dit::model::ImageSnapshot {
        image: "app".to_string(),
        tag: None,
        digest: None,
        commit_sha: String::new(),
        branch: String::new(),
        commit_message: String::new(),
        author: String::new(),
        timestamp: Timestamp { secs: 0, nanos: 0 },
        total_size: total,
        layer_count: 0,
        layers: vec![],
        os: "linux".to_string(),
        arch: "amd64".to_string(),
    }
}

#[test]
fn sparkline_scales_between_extremes() {
    assert_eq!(generate_sparkline(&[]), "");
    assert_eq!(generate_sparkline(&[sized(5)]), "▅");
    assert_eq!(generate_sparkline(&[sized(3), sized(3)]), "▅▅");
    assert_eq!(generate_sparkline(&[sized(0), sized(50), sized(100)]), "▁▅█");
    assert_eq!(generate_sparkline(&[sized(100), sized(0)]), "█▁");
}
