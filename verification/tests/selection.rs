use tfocus::error::TfocusError;
use tfocus::project::TerraformProject;
use tfocus::selection::{
    collect_resources_for_target, collect_selected_resources, create_selection_items,
    deduplicate_resources, parse_selected_item, parse_selected_items,
    numbered_selection_items, resolve_operation_with_prompt, resources_for_selection,
    SelectionItem, SelectionKind,
};
use tfocus::types::{Operation, Resource, Target};
use tfocus::workdir::validate_single_working_directory;

fn create_resource(target_name: &str, file_path: &str) -> Resource {
    Resource {
        resource_type: "aws_instance".to_string(),
        name: target_name.to_string(),
        is_module: false,
        file_path: file_path.to_string(),
        has_count: false,
        has_for_each: false,
        index: None,
    }
}

fn create_module(name: &str, file_path: &str) -> Resource {
    Resource {
        resource_type: "module".to_string(),
        name: name.to_string(),
        is_module: true,
        file_path: file_path.to_string(),
        has_count: false,
        has_for_each: false,
        index: None,
    }
}

#[test]
fn test_parse_selected_item_file() {
    let target = parse_selected_item("f:/tmp/main.tf").unwrap();
    assert_eq!(target, Target::File("/tmp/main.tf".to_string()));
}

#[test]
fn test_parse_selected_item_module() {
    let target = parse_selected_item("m:vpc").unwrap();
    assert_eq!(target, Target::Module("vpc".to_string()));
}

#[test]
fn test_parse_selected_item_resource() {
    let target = parse_selected_item("r:aws_instance.web").unwrap();
    assert_eq!(
        target,
        Target::Resource("aws_instance".to_string(), "web".to_string())
    );
}

#[test]
fn test_parse_selected_item_invalid_resource() {
    let result = parse_selected_item("r:aws_instance");
    assert!(matches!(result, Err(TfocusError::InvalidTargetSelection)));
}

#[test]
fn test_deduplicate_resources() {
    let resources = vec![
        create_resource("web", "/tmp/main.tf"),
        create_resource("web", "/tmp/main.tf"),
        create_resource("app", "/tmp/main.tf"),
    ];

    let deduplicated = deduplicate_resources(resources);
    assert_eq!(deduplicated.len(), 2);
    assert_eq!(deduplicated[0].target_string(), "aws_instance.web");
    assert_eq!(deduplicated[1].target_string(), "aws_instance.app");
}

#[test]
fn test_validate_single_working_directory_same_directory() {
    let resources = vec![
        create_resource("web", "/tmp/a/main.tf"),
        create_resource("app", "/tmp/a/network.tf"),
    ];

    assert!(validate_single_working_directory(&resources).is_ok());
}

#[test]
fn test_validate_single_working_directory_mixed_directories() {
    let resources = vec![
        create_resource("web", "/tmp/a/main.tf"),
        create_resource("app", "/tmp/b/network.tf"),
    ];

    let result = validate_single_working_directory(&resources);
    assert!(matches!(
        result,
        Err(TfocusError::MixedWorkingDirectories(_))
    ));
}

#[test]
fn test_validate_single_working_directory_mixed_directories_with_same_target() {
    let resources = vec![
        create_resource("web", "/tmp/a/main.tf"),
        create_resource("web", "/tmp/b/network.tf"),
    ];

    let result = validate_single_working_directory(&resources);
    assert!(matches!(
        result,
        Err(TfocusError::MixedWorkingDirectories(_))
    ));
}

#[test]
fn test_resolve_operation_prefers_cli_option_without_prompt() {
    let mut prompted = false;
    let operation = resolve_operation_with_prompt(Some(Operation::Apply), false, || {
        prompted = true;
        Ok(Operation::Plan)
    })
    .unwrap();

    assert!(matches!(operation, Operation::Apply));
    assert!(!prompted);
}

#[test]
fn test_resolve_operation_requires_operation_in_non_interactive_mode() {
    let result = resolve_operation_with_prompt(None, true, || Ok(Operation::Plan));

    assert!(
        matches!(result, Err(TfocusError::ParseError(message)) if message.contains("--operation must be specified"))
    );
}

#[test]
fn test_resolve_operation_prompts_when_interactive_and_no_cli_option() {
    let operation = resolve_operation_with_prompt(None, false, || Ok(Operation::Plan)).unwrap();

    assert!(matches!(operation, Operation::Plan));
}

#[test]
fn resolve_operation_passes_prompt_failure_on() {
    let result = resolve_operation_with_prompt(None, false, || {
        Err(TfocusError::Io("terminal closed".to_string()))
    });
    assert!(matches!(result, Err(TfocusError::Io(ref m)) if m == "terminal closed"));
}

#[test]
fn non_interactive_error_message_is_exact() {
    match resolve_operation_with_prompt(None, true, || Ok(Operation::Apply)) {
        Err(TfocusError::ParseError(m)) => assert_eq!(
            m,
            "In --non-interactive mode, --operation must be specified (plan or apply)"
        ),
        other => panic!("unexpected result: {:?}", other),
    }
}

#[test]
fn parse_selected_item_rejects_unknown_tags() {
    assert!(matches!(parse_selected_item("x:vpc"), Err(TfocusError::InvalidTargetSelection)));
    assert!(matches!(parse_selected_item("f"), Err(TfocusError::InvalidTargetSelection)));
    assert!(matches!(parse_selected_item(""), Err(TfocusError::InvalidTargetSelection)));
    assert!(matches!(parse_selected_item("F:main.tf"), Err(TfocusError::InvalidTargetSelection)));
}

#[test]
fn parse_selected_item_splits_resource_at_first_dot() {
    assert_eq!(
        parse_selected_item("r:aws_instance.web.extra").unwrap(),
        Target::Resource("aws_instance".to_string(), "web.extra".to_string())
    );
    assert_eq!(
        parse_selected_item("r:.web").unwrap(),
        Target::Resource("".to_string(), "web".to_string())
    );
    assert_eq!(parse_selected_item("f:").unwrap(), Target::File("".to_string()));
    assert_eq!(
        parse_selected_item("m:réseau").unwrap(),
        Target::Module("réseau".to_string())
    );
}

#[test]
fn parse_selected_items_stops_at_first_invalid() {
    let items = vec!["m:vpc".to_string(), "f:a.tf".to_string()];
    assert_eq!(
        parse_selected_items(&items).unwrap(),
        vec![Target::Module("vpc".to_string()), Target::File("a.tf".to_string())]
    );
    let bad = vec!["m:vpc".to_string(), "bogus".to_string(), "r:x".to_string()];
    assert!(matches!(parse_selected_items(&bad), Err(TfocusError::InvalidTargetSelection)));
}

#[test]
fn create_selection_items_lays_out_lines() {
    let items = vec![
        SelectionItem::File(1, "main.tf".to_string()),
        SelectionItem::Module(2, "vpc".to_string()),
        SelectionItem::Resource(3, create_resource("web", "main.tf")),
        SelectionItem::Resource(12345, create_module("net", "main.tf")),
    ];
    let lines = create_selection_items(&items);
    assert_eq!(lines.len(), 4);
    assert_eq!(lines[0].display, format!("{:4} {:15} {}", 1, "[File]", "main.tf"));
    assert_eq!(lines[0].display, "   1 [File]          main.tf");
    assert_eq!(lines[0].search_text, "main.tf");
    assert_eq!(lines[0].data, "f:main.tf");
    assert_eq!(lines[1].display, format!("{:4} {:15} {}", 2, "[Module]", "vpc"));
    assert_eq!(lines[1].search_text, "vpc");
    assert_eq!(lines[1].data, "m:vpc");
    assert_eq!(lines[2].display, format!("{:4} {:15} {}", 3, "[Resource]", "aws_instance.web"));
    assert_eq!(lines[2].search_text, "aws_instance.web");
    assert_eq!(lines[2].data, "r:aws_instance.web");
    assert_eq!(lines[3].display, format!("{:4} {:15} {}", 12345, "[Module]", "module.net"));
    assert_eq!(lines[3].search_text, "module.net");
    assert_eq!(lines[3].data, "m:net");
}

#[test]
fn selection_data_parses_back_to_its_target() {
    let items = vec![
        SelectionItem::File(1, "/tmp/main.tf".to_string()),
        SelectionItem::Module(2, "vpc".to_string()),
        SelectionItem::Resource(3, create_resource("web", "main.tf")),
        SelectionItem::Resource(4, create_module("net", "main.tf")),
    ];
    let lines = create_selection_items(&items);
    let targets: Vec<Target> = lines.iter().map(|l| parse_selected_item(&l.data).unwrap()).collect();
    assert_eq!(
        targets,
        vec![
            Target::File("/tmp/main.tf".to_string()),
            Target::Module("vpc".to_string()),
            Target::Resource("aws_instance".to_string(), "web".to_string()),
            Target::Module("net".to_string()),
        ]
    );
}

#[test]
fn deduplicate_resources_keeps_first_and_is_idempotent() {
    let mut indexed = create_resource("web", "/tmp/b.tf");
    indexed.index = Some("0".to_string());
    let resources = vec![
        create_resource("web", "/tmp/a.tf"),
        indexed.clone(),
        create_resource("web", "/tmp/c.tf"),
        create_module("web", "/tmp/a.tf"),
    ];
    let once = deduplicate_resources(resources);
    assert_eq!(once.len(), 3);
    assert_eq!(once[0].file_path, "/tmp/a.tf");
    assert_eq!(once[1], indexed);
    assert_eq!(once[2].target_string(), "module.web");
    let twice = deduplicate_resources(once.clone());
    assert_eq!(twice, once);
}

#[test]
fn validate_single_working_directory_accepts_no_resources() {
    assert!(validate_single_working_directory(&[]).is_ok());
}

#[test]
fn collect_resources_by_file_module_and_resource() {
    let project = TerraformProject::new(vec![
        create_resource("web", "a/main.tf"),
        create_module("vpc", "a/main.tf"),
        create_resource("app", "a/app.tf"),
        create_resource("web", "b/main.tf"),
    ]);
    let by_file = collect_resources_for_target(&project, &Target::File("a/main.tf".to_string()));
    assert_eq!(by_file.len(), 2);
    assert_eq!(by_file[0].name, "web");
    assert_eq!(by_file[1].name, "vpc");
    let by_module = collect_resources_for_target(&project, &Target::Module("vpc".to_string()));
    assert_eq!(by_module.len(), 1);
    assert!(by_module[0].is_module);
    let by_resource = collect_resources_for_target(
        &project,
        &Target::Resource("aws_instance".to_string(), "web".to_string()),
    );
    assert_eq!(by_resource.len(), 2);
    assert_eq!(by_resource[1].file_path, "b/main.tf");

    let all = collect_selected_resources(
        &project,
        &[Target::Module("vpc".to_string()), Target::File("a/app.tf".to_string())],
    );
    assert_eq!(all.len(), 2);
    assert_eq!(all[0].name, "vpc");
    assert_eq!(all[1].name, "app");
}

#[test]
fn checked_and_deduplicated_selection_runs_in_its_directory() {
    let resources = vec![
        create_resource("web", "env/a.tf"),
        create_resource("app", "env/b.tf"),
        create_resource("web", "env/c.tf"),
    ];
    assert!(validate_single_working_directory(&resources).is_ok());
    let deduplicated = deduplicate_resources(resources);
    let mut dir = String::new();
    let mut targets = Vec::new();
    let result = tfocus::executor::execute_with_resources(
        &deduplicated,
        Operation::Plan,
        || Ok(()),
        |plan: tfocus::executor::ExecutionPlan, _h: ()| {
            dir = plan.working_dir;
            targets = plan.target_options;
            Ok(true)
        },
    );
    assert!(result.is_ok());
    assert_eq!(dir, "env");
    assert_eq!(
        targets,
        vec!["-target=aws_instance.web".to_string(), "-target=aws_instance.app".to_string()]
    );
}

#[test]
fn numbered_selection_items_numbers_all_kinds_from_one() {
    let files = vec!["a.tf".to_string(), "b.tf".to_string()];
    let modules = vec!["vpc".to_string()];
    let resources = vec![create_resource("web", "a.tf")];

    let all = numbered_selection_items(&files, &modules, &resources, None);
    assert_eq!(all.len(), 4);
    assert!(matches!(&all[0], SelectionItem::File(1, p) if p == "a.tf"));
    assert!(matches!(&all[1], SelectionItem::File(2, p) if p == "b.tf"));
    assert!(matches!(&all[2], SelectionItem::Module(3, n) if n == "vpc"));
    assert!(matches!(&all[3], SelectionItem::Resource(4, r) if r.name == "web"));

    let only_files = numbered_selection_items(&files, &modules, &resources, Some(SelectionKind::File));
    assert_eq!(only_files.len(), 3);
    assert!(matches!(&only_files[1], SelectionItem::File(2, _)));
    assert!(matches!(&only_files[2], SelectionItem::Resource(3, _)));

    let only_modules =
        numbered_selection_items(&files, &modules, &resources, Some(SelectionKind::Module));
    assert_eq!(only_modules.len(), 2);
    assert!(matches!(&only_modules[0], SelectionItem::Module(1, n) if n == "vpc"));
    assert!(matches!(&only_modules[1], SelectionItem::Resource(2, _)));

    assert!(numbered_selection_items(&[], &[], &[], None).is_empty());
}

#[test]
fn resources_for_selection_checks_directories_before_deduplicating() {
    let project = TerraformProject::new(vec![
        create_resource("web", "/tmp/a/main.tf"),
        create_resource("web", "/tmp/b/network.tf"),
        create_resource("app", "/tmp/a/app.tf"),
    ]);
    let mixed = resources_for_selection(&project, &["r:aws_instance.web".to_string()]);
    match mixed {
        Err(TfocusError::MixedWorkingDirectories(dirs)) => {
            assert_eq!(dirs, vec!["/tmp/a".to_string(), "/tmp/b".to_string()])
        }
        other => panic!("unexpected result: {:?}", other),
    }

    let chosen = vec!["f:/tmp/a/main.tf".to_string(), "r:aws_instance.web".to_string()];
    assert!(matches!(
        resources_for_selection(&project, &chosen),
        Err(TfocusError::MixedWorkingDirectories(_))
    ));

    let same = vec![
        "f:/tmp/a/main.tf".to_string(),
        "f:/tmp/a/main.tf".to_string(),
        "r:aws_instance.app".to_string(),
    ];
    let resources = resources_for_selection(&project, &same).unwrap();
    assert_eq!(resources.len(), 2);
    assert_eq!(resources[0].name, "web");
    assert_eq!(resources[1].name, "app");

    let nothing = resources_for_selection(&project, &["m:absent".to_string()]).unwrap();
    assert!(nothing.is_empty());

    assert!(matches!(
        resources_for_selection(&project, &["m:vpc".to_string(), "r:bad".to_string()]),
        Err(TfocusError::InvalidTargetSelection)
    ));
}
