use tesla_notes::StoreError;
use tesla_notes::plan::CreatePlanParams;
use tesla_notes::plan::PlanStore;

fn plan(date: &str, title: &str, priority: Option<i64>) -> CreatePlanParams {
    CreatePlanParams {
        plan_date: date.to_string(),
        title: title.to_string(),
        description: None,
        category: None,
        priority,
    }
}

#[test]
fn plan_create_applies_defaults() {
    let mut s = PlanStore::new();
    let p = s.create_plan(plan("2024-03-01", "Ship release", None)).unwrap();
    assert_eq!(p.id, 1);
    assert_eq!(p.plan_date, "2024-03-01");
    assert_eq!(p.title, "Ship release");
    assert!(p.description.is_none());
    assert_eq!(p.category, "daily");
    assert!(!p.completed);
    assert_eq!(p.priority, 0);
    assert_eq!(p.created_ts, p.updated_ts);
    assert!(p.completed_ts.is_none());
}

#[test]
fn plan_create_keeps_supplied_fields() {
    let mut s = PlanStore::new();
    let p = s
        .create_plan(CreatePlanParams {
            plan_date: "2024-03-01".to_string(),
            title: "T".to_string(),
            description: Some("details".to_string()),
            category: Some("focus".to_string()),
            priority: Some(7),
        })
        .unwrap();
    assert_eq!(p.description.as_deref(), Some("details"));
    assert_eq!(p.category, "focus");
    assert_eq!(p.priority, 7);
}

#[test]
fn equal_priority_lists_earlier_created_first() {
    let mut s = PlanStore::new();
    s.create_plan_at(plan("2024-03-01", "Ship release", Some(5)), 1000).unwrap();
    s.create_plan_at(plan("2024-03-01", "Write notes", Some(5)), 1000).unwrap();

    let listed = s.get_plans_by_date("2024-03-01").unwrap();
    assert_eq!(listed.len(), 2);
    assert_eq!(listed[0].title, "Ship release");
    assert_eq!(listed[1].title, "Write notes");
}

#[test]
fn higher_priority_lists_first() {
    let mut s = PlanStore::new();
    s.create_plan_at(plan("2024-03-01", "minor", Some(1)), 1000).unwrap();
    s.create_plan_at(plan("2024-03-01", "major", Some(9)), 2000).unwrap();
    s.create_plan_at(plan("2024-03-02", "other day", Some(9)), 1500).unwrap();

    let listed = s.get_plans_by_date("2024-03-01").unwrap();
    assert_eq!(listed.len(), 2);
    assert_eq!(listed[0].title, "major");
    assert_eq!(listed[1].title, "minor");
}

#[test]
fn toggle_stamps_and_clears_completion_instant() {
    let mut s = PlanStore::new();
    let p = s.create_plan_at(plan("2024-03-01", "T", None), 1000).unwrap();
    assert!(!p.completed);
    assert!(p.completed_ts.is_none());

    let p = s.toggle_plan_completion_at(p.id, 1500).unwrap();
    assert!(p.completed);
    assert_eq!(p.completed_ts, Some(1500));
    assert_eq!(p.updated_ts, 1500);

    let p = s.toggle_plan_completion_at(p.id, 1600).unwrap();
    assert!(!p.completed);
    assert!(p.completed_ts.is_none());
    assert_eq!(p.updated_ts, 1600);
}

#[test]
fn plan_toggle_of_missing_id_is_not_found() {
    let mut s = PlanStore::new();
    assert_eq!(s.toggle_plan_completion(3).unwrap_err(), StoreError::NotFound);
}

#[test]
fn update_merges_title_and_description_only() {
    let mut s = PlanStore::new();
    let p = s
        .create_plan_at(
            CreatePlanParams {
                plan_date: "2024-03-01".to_string(),
                title: "old title".to_string(),
                description: Some("old description".to_string()),
                category: Some("focus".to_string()),
                priority: Some(3),
            },
            1000,
        )
        .unwrap();

    let p2 = s.update_plan_at(p.id, Some("new title".to_string()), None, 2000).unwrap();
    assert_eq!(p2.title, "new title");
    assert_eq!(p2.description.as_deref(), Some("old description"));
    assert_eq!(p2.category, "focus");
    assert_eq!(p2.priority, 3);
    assert_eq!(p2.plan_date, "2024-03-01");
    assert_eq!(p2.created_ts, p.created_ts);
    assert_eq!(p2.updated_ts, 2000);

    let p3 = s.update_plan_at(p.id, None, Some("new description".to_string()), 3000).unwrap();
    assert_eq!(p3.title, "new title");
    assert_eq!(p3.description.as_deref(), Some("new description"));
}

#[test]
fn plan_update_of_missing_id_is_not_found() {
    let mut s = PlanStore::new();
    assert_eq!(s.update_plan(9, None, None).unwrap_err(), StoreError::NotFound);
}

#[test]
fn plan_delete_is_idempotent_and_lookup_then_fails() {
    let mut s = PlanStore::new();
    assert!(s.delete_plan(77).is_ok());
    let p = s.create_plan(plan("2024-03-01", "T", None)).unwrap();
    assert!(s.delete_plan(p.id).is_ok());
    assert_eq!(s.get_plan_by_id(p.id).unwrap_err(), StoreError::NotFound);
    assert!(s.delete_plan(p.id).is_ok());
}

#[test]
fn get_plan_by_id_returns_the_row() {
    let mut s = PlanStore::new();
    let p = s.create_plan(plan("2024-03-01", "T", None)).unwrap();
    let got = s.get_plan_by_id(p.id).unwrap();
    assert_eq!(got.title, "T");
    assert_eq!(s.get_plan_by_id(p.id + 1).unwrap_err(), StoreError::NotFound);
}

#[test]
fn plan_restore_rejects_a_row_updated_before_created() {
    let mut s = PlanStore::new();
    let mut p = s.create_plan_at(plan("2024-03-01", "T", None), 500).unwrap();
    s.delete_plan(p.id).unwrap();
    p.updated_ts = 400;
    assert_eq!(s.restore_plan(p).unwrap_err(), StoreError::PersistenceError);
}

#[test]
fn plan_update_never_moves_updated_ts_backwards() {
    let mut s = PlanStore::new();
    let p = s.create_plan(plan("2024-03-01", "T", None)).unwrap();
    let p2 = s.update_plan(p.id, Some("T2".to_string()), None).unwrap();
    assert!(p2.updated_ts >= p.updated_ts);
    assert!(p2.updated_ts >= p2.created_ts);
    let p3 = s.toggle_plan_completion(p.id).unwrap();
    assert!(p3.updated_ts >= p2.updated_ts);
    assert!(p3.updated_ts >= p3.created_ts);
}

#[test]
fn ids_are_not_reused_after_delete() {
    let mut s = PlanStore::new();
    let p1 = s.create_plan(plan("2024-03-01", "a", None)).unwrap();
    s.delete_plan(p1.id).unwrap();
    let p2 = s.create_plan(plan("2024-03-01", "b", None)).unwrap();
    assert!(p2.id > p1.id);
}
