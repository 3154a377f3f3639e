use herdr_branch_cleanup::json::Json;
use herdr_branch_cleanup::sweep::{status_from_text, status_json, RepoReport, Settings};

/// The JSON value serde_json writes for a library value.
fn to_value(json: &Json) -> serde_json::Value {
    match json {
        Json::Null => serde_json::Value::Null,
        Json::Bool(flag) => serde_json::Value::Bool(*flag),
        Json::Number(text) => serde_json::Value::Number(text.parse().unwrap()),
        Json::Str(text) => serde_json::Value::String(text.clone()),
        Json::Array(items) => serde_json::Value::Array(items.iter().map(to_value).collect()),
        Json::Object(entries) => serde_json::Value::Object(
            entries
                .iter()
                .map(|(key, value)| (key.clone(), to_value(value)))
                .collect(),
        ),
    }
}

fn report(root: &str, branch: &str, action: &'static str, checked_out: bool) -> RepoReport {
    RepoReport {
        root: root.to_owned(),
        branch: branch.to_owned(),
        fate: "merged",
        action,
        reason: "branch merged, checked out main".to_owned(),
        checked_out,
    }
}

#[test]
fn status_text_reads_back_what_was_written() {
    let reports = vec![
        report("/repo", "feature", "checkout", true),
        report("/other", "fix", "hold", false),
    ];
    let settings = Settings {
        dry_run: true,
        notify_only: false,
    };
    let mut payload = to_value(&status_json(&reports, settings));
    payload
        .as_object_mut()
        .unwrap()
        .insert("updated_epoch".to_owned(), serde_json::Value::from(1700000000.5));
    let text = serde_json::to_string_pretty(&payload).unwrap();
    let status = status_from_text(&text).expect("the status file holds an object");
    assert_eq!(status.get("dry_run"), Some(&Json::Bool(true)));
    assert_eq!(status.get("notify_only"), Some(&Json::Bool(false)));
    let rows = match status.get("reports") {
        Some(Json::Array(rows)) => rows,
        other => panic!("reports is not an array: {other:?}"),
    };
    assert_eq!(rows.len(), reports.len());
    for (row, written) in rows.iter().zip(&reports) {
        assert_eq!(row.get("root").and_then(Json::as_str), Some(written.root.as_str()));
        assert_eq!(row.get("branch").and_then(Json::as_str), Some(written.branch.as_str()));
        assert_eq!(row.get("fate").and_then(Json::as_str), Some(written.fate));
        assert_eq!(row.get("action").and_then(Json::as_str), Some(written.action));
        assert_eq!(row.get("reason").and_then(Json::as_str), Some(written.reason.as_str()));
        assert_eq!(row.get("checked_out"), Some(&Json::Bool(written.checked_out)));
    }
}
