use og::apply_logic::apply_changes;
use og::date::Date;
use og::task_model::Task;
use std::collections::HashMap;

    fn create_sample_task(id: i64, name: &str, display_order: i64, project: Option<&str>) -> Task {
        Task {
            id,
            name: name.to_string(),
            status: "PENDING".to_string(),
            priority: "N".to_string(),
            created: Date::from_ymd_opt(2024, 1, 1).unwrap(),
            display_order,
            due: None,
            updated: None,
            completed: None,
            project: project.map(String::from),
            contexts: None,
            notes: None,
            tags: None,
            subtasks: None,
            extra: None,
            repeat: None,
        }
    }

    #[test]
    fn test_add_new_task() {
        let existing_tasks = vec![];
        let md_tasks = vec![create_sample_task(1, "New Task", 1, None)];
        let today = Date::today();
        let result = apply_changes(existing_tasks, md_tasks, today).unwrap();
        assert_eq!(result.len(), 1);
        assert_eq!(result[0].name, "New Task");
        assert_eq!(result[0].id, 1);
        assert_eq!(result[0].display_order, 1);
        assert_eq!(result[0].updated, Some(today));
    }

    #[test]
    fn test_update_existing_task() {
        let today = Date::today();
        let existing_tasks = vec![create_sample_task(1, "Old Name", 1, None)];
        let md_tasks = vec![create_sample_task(1, "New Name", 1, Some("ProjectX"))];
        
        let result = apply_changes(existing_tasks, md_tasks, today).unwrap();
        assert_eq!(result.len(), 1);
        assert_eq!(result[0].name, "New Name");
        assert_eq!(result[0].project, Some("ProjectX".to_string()));
        assert_eq!(result[0].updated, Some(today));
        assert_eq!(result[0].display_order, 1);
    }

    #[test]
    fn test_delete_task() {
        let existing_tasks = vec![
            create_sample_task(1, "Task 1", 1, None),
            create_sample_task(2, "Task 2", 2, None),
        ];
        let md_tasks = vec![create_sample_task(1, "Task 1", 1, None)]; // Task 2 is missing
        let today = Date::today();
        let result = apply_changes(existing_tasks, md_tasks, today).unwrap();
        assert_eq!(result.len(), 1);
        assert_eq!(result[0].id, 1);
    }

    #[test]
    fn test_reorder_tasks() {
        let existing_tasks = vec![
            create_sample_task(1, "Task 1", 1, None),
            create_sample_task(2, "Task 2", 2, None),
        ];
        // Markdown tasks are reordered
        let md_tasks = vec![
            create_sample_task(2, "Task 2", 1, None), // Was 2nd, now 1st
            create_sample_task(1, "Task 1", 2, None), // Was 1st, now 2nd
        ];
        let today = Date::today();
        let result = apply_changes(existing_tasks, md_tasks, today).unwrap();
        
        assert_eq!(result.len(), 2);
        assert_eq!(result[0].id, 2);
        assert_eq!(result[0].display_order, 1);
        assert_eq!(result[1].id, 1);
        assert_eq!(result[1].display_order, 2);
    }

    #[test]
    fn test_add_update_delete_reorder_combined() {
        let existing_tasks = vec![
            create_sample_task(1, "Task One Old", 1, None), // To be updated
            create_sample_task(2, "Task Two Delete", 2, None), // To be deleted
            create_sample_task(3, "Task Three Old", 3, None), // To be reordered and updated
        ];
        let md_tasks = vec![
            create_sample_task(4, "Task Four New", 1, Some("NewProj")), // New task, first
            create_sample_task(3, "Task Three New Name", 2, None), // Reordered (was 3rd, now 2nd) and updated
            create_sample_task(1, "Task One New Name", 3, None), // Updated (was 1st, now 3rd)
        ];
        let today = Date::today();
        let result = apply_changes(existing_tasks, md_tasks, today).unwrap();

        assert_eq!(result.len(), 3);

        // Task Four New (ID 4)
        assert_eq!(result[0].id, 4);
        assert_eq!(result[0].name, "Task Four New");
        assert_eq!(result[0].project, Some("NewProj".to_string()));
        assert_eq!(result[0].display_order, 1);
        assert_eq!(result[0].updated, Some(today));


        // Task Three New Name (ID 3)
        assert_eq!(result[1].id, 3);
        assert_eq!(result[1].name, "Task Three New Name");
        assert_eq!(result[1].display_order, 2);
        assert_eq!(result[1].updated, Some(today));


        // Task One New Name (ID 1)
        assert_eq!(result[2].id, 1);
        assert_eq!(result[2].name, "Task One New Name");
        assert_eq!(result[2].display_order, 3);
        assert_eq!(result[2].updated, Some(today));
    }
    
    #[test]
    fn test_preserve_extra_field_on_update() {
        let mut task1_existing = create_sample_task(1, "Task 1 Old", 1, None);
        let mut extra_data = HashMap::new();
        extra_data.insert("custom_key".to_string(), serde_json::Value::String("custom_value".to_string()));
        task1_existing.extra = Some(extra_data);

        let existing_tasks = vec![task1_existing];
        let md_tasks = vec![create_sample_task(1, "Task 1 New", 1, Some("ProjectX"))]; // No extra field in MD
        
        let today = Date::today();
        let result = apply_changes(existing_tasks, md_tasks, today).unwrap();

        assert_eq!(result.len(), 1);
        assert_eq!(result[0].name, "Task 1 New");
        assert!(result[0].extra.is_some());
        assert_eq!(result[0].extra.as_ref().unwrap().get("custom_key").unwrap(), &serde_json::Value::String("custom_value".to_string()));
        assert_eq!(result[0].updated, Some(today));
    }
