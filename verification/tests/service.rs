use bencher_adapter::backup::{
    plan_backup, plan_backup_at, vacuum_query, ApiError, BackupPlan, JsonBackup, JsonDataStore,
    BACKUP_LAYOUT,
};
use bencher_adapter::branch::{HttpError, InsertBranch, JsonBranch, JsonNewBranch, QueryBranch};
use bencher_adapter::project::{slug_or_default, unwrap_project, DEFAULT_PROJECT};

fn failure() -> HttpError {
    HttpError { message: "Failed to get branch.".to_string() }
}

fn row(uuid: &str) -> QueryBranch {
    QueryBranch {
        id: 7,
        uuid: uuid.to_string(),
        project_id: 3,
        name: "main".to_string(),
        slug: "main".to_string(),
    }
}

#[test]
fn project_slug_of_a_name() {
    assert_eq!(unwrap_project(Some("My Test String!!!1!1")), "my-test-string-1-1");
    assert_eq!(unwrap_project(Some("  --test_-_cool")), "test-cool");
    assert_eq!(unwrap_project(Some("You & Me")), "you-me");
    assert_eq!(unwrap_project(Some("already-a-slug")), "already-a-slug");
    assert_eq!(unwrap_project(Some("")), "");
}

#[test]
fn project_default_without_a_name() {
    assert_eq!(unwrap_project(None), "default");
    assert_eq!(DEFAULT_PROJECT, "default");
}

#[test]
fn backup_plan_names_the_file() {
    let plan = plan_backup_at(
        true,
        1,
        Some("bencher"),
        Some("db"),
        "2023-01-02-03-04-05",
        JsonBackup { compress: None, data_store: None },
    );
    assert_eq!(
        plan,
        Ok(BackupPlan {
            backup_file_name: "backup-bencher-2023-01-02-03-04-05.db".to_string(),
            compress_file_name: None,
            upload_key: None,
        })
    );
}

#[test]
fn backup_plan_falls_back_on_stem_and_extension() {
    let plan = plan_backup_at(
        true,
        1,
        None,
        None,
        "2023-01-02-03-04-05",
        JsonBackup { compress: Some(false), data_store: None },
    )
    .unwrap();
    assert_eq!(plan.backup_file_name, "backup-bencher-2023-01-02-03-04-05.db");
    let plan = plan_backup_at(
        true,
        1,
        Some("data"),
        Some("sqlite"),
        "t",
        JsonBackup { compress: None, data_store: None },
    )
    .unwrap();
    assert_eq!(plan.backup_file_name, "backup-data-t.sqlite");
}

#[test]
fn backup_plan_compresses_and_uploads() {
    let plan = plan_backup_at(
        true,
        1,
        Some("bencher"),
        Some("db"),
        "2023-01-02-03-04-05",
        JsonBackup { compress: Some(true), data_store: Some(JsonDataStore::AwsS3) },
    );
    assert_eq!(
        plan,
        Ok(BackupPlan {
            backup_file_name: "backup-bencher-2023-01-02-03-04-05.db".to_string(),
            compress_file_name: Some("backup-bencher-2023-01-02-03-04-05.db.gz".to_string()),
            upload_key: Some("backup/backup-bencher-2023-01-02-03-04-05.db.gz".to_string()),
        })
    );
    let plan = plan_backup_at(
        true,
        1,
        Some("bencher"),
        Some("db"),
        "2023-01-02-03-04-05",
        JsonBackup { compress: None, data_store: Some(JsonDataStore::AwsS3) },
    )
    .unwrap();
    assert_eq!(plan.compress_file_name, None);
    assert_eq!(
        plan.upload_key,
        Some("backup/backup-bencher-2023-01-02-03-04-05.db".to_string())
    );
}

#[test]
fn backup_plan_is_for_administrators() {
    let asked = JsonBackup { compress: Some(true), data_store: Some(JsonDataStore::AwsS3) };
    assert_eq!(plan_backup_at(false, 42, None, None, "t", asked), Err(ApiError::Admin(42)));
    assert_eq!(plan_backup(false, 42, None, None, 0, asked), Err(ApiError::Admin(42)));
    assert_eq!(plan_backup(false, 42, None, None, i64::MAX, asked), Err(ApiError::Admin(42)));
}

#[test]
fn backup_plan_writes_the_moment() {
    let asked = JsonBackup { compress: None, data_store: None };
    let plan = plan_backup(true, 1, Some("bencher"), Some("db"), 1_672_628_645, asked).unwrap();
    assert_eq!(plan.backup_file_name, "backup-bencher-2023-01-02-03-04-05.db");
    let plan = plan_backup(true, 1, Some("bencher"), Some("db"), 0, asked).unwrap();
    assert_eq!(plan.backup_file_name, "backup-bencher-1970-01-01-00-00-00.db");
    assert_eq!(
        plan_backup(true, 1, None, None, i64::MAX, asked),
        Err(ApiError::Timestamp(i64::MAX))
    );
}

#[test]
fn backup_query_names_the_path() {
    assert_eq!(vacuum_query("/data/backup-bencher-t.db"), "VACUUM INTO '/data/backup-bencher-t.db'");
    assert_eq!(vacuum_query(""), "VACUUM INTO ''");
}

#[test]
fn branch_identifier_is_read_from_its_text() {
    assert_eq!(
        QueryBranch::get_uuid(Some("550e8400-e29b-41d4-a716-446655440000")),
        Ok(0x550e8400_e29b_41d4_a716_446655440000)
    );
    assert_eq!(
        QueryBranch::get_uuid(Some("550e8400e29b41d4a716446655440000")),
        Ok(0x550e8400_e29b_41d4_a716_446655440000)
    );
    assert_eq!(QueryBranch::get_uuid(Some("not an identifier")), Err(failure()));
    assert_eq!(QueryBranch::get_uuid(Some("")), Err(failure()));
    assert_eq!(QueryBranch::get_uuid(None), Err(failure()));
}

#[test]
fn branch_is_handed_out_with_its_identifiers() {
    assert_eq!(
        row("550e8400-e29b-41d4-a716-446655440000").into_json(9),
        Ok(JsonBranch {
            uuid: 0x550e8400_e29b_41d4_a716_446655440000,
            project: 9,
            name: "main".to_string(),
            slug: "main".to_string(),
        })
    );
    assert_eq!(row("main").into_json(9), Err(failure()));
}

#[test]
fn branch_row_is_made_of_what_is_asked() {
    let asked = JsonNewBranch {
        project: "the-project".to_string(),
        name: "Feature Branch".to_string(),
        slug: None,
    };
    assert_eq!(
        InsertBranch::from_json(
            asked,
            0x550e8400_e29b_41d4_a716_446655440000,
            Ok(3),
            "feature-branch".to_string()
        ),
        Ok(InsertBranch {
            uuid: 0x550e8400_e29b_41d4_a716_446655440000,
            project_id: 3,
            name: "Feature Branch".to_string(),
            slug: "feature-branch".to_string(),
        })
    );
}

#[test]
fn branch_row_is_not_made_without_its_project() {
    let asked = JsonNewBranch {
        project: "no-such-project".to_string(),
        name: "Feature Branch".to_string(),
        slug: None,
    };
    let not_found = HttpError { message: "Failed to get project.".to_string() };
    assert_eq!(
        InsertBranch::from_json(asked, 7, Err(not_found.clone()), "feature-branch".to_string()),
        Err(not_found)
    );
}

#[test]
fn report_path_names_project_and_report() {
    let view = bencher_adapter::report::ReportView {
        project: "the-project".to_string(),
        report: "550e8400-e29b-41d4-a716-446655440000".to_string(),
    };
    assert_eq!(
        view.path(),
        "/v0/projects/the-project/reports/550e8400-e29b-41d4-a716-446655440000"
    );
}

#[test]
fn branch_with_an_identifier_that_was_read() {
    assert_eq!(QueryBranch::read_uuid(Some(7)), Ok(7));
    assert_eq!(QueryBranch::read_uuid(None), Err(failure()));
    assert_eq!(
        row("anything").with_uuid(Some(7), 9),
        Ok(JsonBranch { uuid: 7, project: 9, name: "main".to_string(), slug: "main".to_string() })
    );
    assert_eq!(row("anything").with_uuid(None, 9), Err(failure()));
}

#[test]
fn project_slug_that_was_made_or_the_default() {
    assert_eq!(slug_or_default(Some("my-project".to_string())), "my-project");
    assert_eq!(slug_or_default(Some(String::new())), "");
    assert_eq!(slug_or_default(None), "default");
}

#[test]
fn backup_layout_is_year_to_second() {
    assert_eq!(BACKUP_LAYOUT, "%Y-%m-%d-%H-%M-%S");
    let asked = JsonBackup { compress: None, data_store: None };
    let plan = plan_backup(true, 1, None, None, 951_782_399, asked).unwrap();
    assert_eq!(plan.backup_file_name, "backup-bencher-2000-02-28-23-59-59.db");
}
