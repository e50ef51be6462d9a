use tfocus::error::TfocusError;
use tfocus::executor::{
    build_command_display, command_outcome, create_target_options, execute_with_resources,
    terraform_arguments, terraform_binary_name, CommandStatus, ExecutionPlan,
};
use tfocus::types::{Operation, Resource};
use tfocus::workdir::get_working_directory;

fn resource(resource_type: &str, name: &str, file_path: &str, index: Option<&str>) -> Resource {
    Resource {
        resource_type: resource_type.to_string(),
        name: name.to_string(),
        is_module: false,
        file_path: file_path.to_string(),
        has_count: index.is_some(),
        has_for_each: false,
        index: index.map(|i| i.to_string()),
    }
}

#[test]
fn test_create_target_options() {
    let resources = vec![
        Resource {
            resource_type: "aws_instance".to_string(),
            name: "web".to_string(),
            is_module: false,
            file_path: "main.tf".to_string(),
            has_count: false,
            has_for_each: false,
            index: None,
        },
        Resource {
            resource_type: "aws_instance".to_string(),
            name: "app".to_string(),
            is_module: false,
            file_path: "main.tf".to_string(),
            has_count: true,
            has_for_each: false,
            index: Some("0".to_string()),
        },
    ];

    let options = create_target_options(&resources).unwrap();
    assert_eq!(options[0], "-target=aws_instance.web");
    assert_eq!(options[1], "-target=aws_instance.app[0]");
}

#[test]
fn test_create_target_options_deduplicates() {
    let resources = vec![
        Resource {
            resource_type: "aws_instance".to_string(),
            name: "web".to_string(),
            is_module: false,
            file_path: "main.tf".to_string(),
            has_count: false,
            has_for_each: false,
            index: None,
        },
        Resource {
            resource_type: "aws_instance".to_string(),
            name: "web".to_string(),
            is_module: false,
            file_path: "main.tf".to_string(),
            has_count: false,
            has_for_each: false,
            index: None,
        },
    ];

    let options = create_target_options(&resources).unwrap();
    assert_eq!(options, vec!["-target=aws_instance.web".to_string()]);
}

#[test]
fn test_get_working_directory_with_multiple_directories() {
    let resources = vec![
        Resource {
            resource_type: "aws_instance".to_string(),
            name: "web".to_string(),
            is_module: false,
            file_path: "dir1/main.tf".to_string(),
            has_count: false,
            has_for_each: false,
            index: None,
        },
        Resource {
            resource_type: "aws_instance".to_string(),
            name: "app".to_string(),
            is_module: false,
            file_path: "dir2/main.tf".to_string(),
            has_count: false,
            has_for_each: false,
            index: None,
        },
    ];

    let result = get_working_directory(&resources);
    assert!(matches!(
        result,
        Err(TfocusError::MixedWorkingDirectories(_))
    ));
}

#[test]
fn test_build_command_display_for_plan() {
    let command = build_command_display(
        "terraform",
        &Operation::Plan,
        &["-target=aws_instance.web".to_string()],
    );

    assert_eq!(command, "terraform plan -target=aws_instance.web");
}

#[test]
fn test_build_command_display_for_apply_does_not_include_auto_approve() {
    let command = build_command_display(
        "terraform",
        &Operation::Apply,
        &["-target=aws_instance.web".to_string()],
    );

    assert_eq!(command, "terraform apply -target=aws_instance.web");
    assert!(!command.contains("-auto-approve"));
}

#[test]
fn create_target_options_fails_without_resources() {
    let result = create_target_options(&[]);
    match result {
        Err(TfocusError::ParseError(message)) => assert_eq!(message, "No targets specified"),
        other => panic!("unexpected result: {:?}", other),
    }
}

#[test]
fn create_target_options_keeps_first_occurrence_order() {
    let resources = vec![
        resource("aws_instance", "web", "main.tf", None),
        resource("aws_s3_bucket", "logs", "main.tf", None),
        resource("aws_instance", "web", "main.tf", None),
        resource("aws_instance", "web", "main.tf", Some("1")),
    ];
    let options = create_target_options(&resources).unwrap();
    assert_eq!(
        options,
        vec![
            "-target=aws_instance.web".to_string(),
            "-target=aws_s3_bucket.logs".to_string(),
            "-target=aws_instance.web[1]".to_string(),
        ]
    );
}

#[test]
fn create_target_options_names_modules() {
    let mut module = resource("module", "vpc", "main.tf", None);
    module.is_module = true;
    let options = create_target_options(&[module]).unwrap();
    assert_eq!(options, vec!["-target=module.vpc".to_string()]);
}

#[test]
fn build_command_display_without_targets() {
    assert_eq!(build_command_display("tf", &Operation::Plan, &[]), "tf plan");
}

#[test]
fn build_command_display_joins_targets_with_spaces() {
    let command = build_command_display(
        "terraform",
        &Operation::Apply,
        &["-target=a.b".to_string(), "-target=c.d".to_string(), "-target=e.f".to_string()],
    );
    assert_eq!(command, "terraform apply -target=a.b -target=c.d -target=e.f");
}

#[test]
fn get_working_directory_is_parent_of_first_file() {
    let resources = vec![
        resource("aws_instance", "web", "dir1/main.tf", None),
        resource("aws_instance", "app", "dir1/other.tf", None),
    ];
    assert_eq!(get_working_directory(&resources).unwrap(), "dir1");
}

#[test]
fn get_working_directory_of_bare_file_name_is_empty() {
    let resources = vec![resource("aws_instance", "web", "main.tf", None)];
    assert_eq!(get_working_directory(&resources).unwrap(), "");
}

#[test]
fn get_working_directory_without_parent_is_current_directory() {
    let resources = vec![resource("aws_instance", "web", "/", None)];
    assert_eq!(get_working_directory(&resources).unwrap(), ".");
}

#[test]
fn get_working_directory_fails_without_resources() {
    match get_working_directory(&[]) {
        Err(TfocusError::ParseError(message)) => assert_eq!(message, "No resources specified"),
        other => panic!("unexpected result: {:?}", other),
    }
}

#[test]
fn get_working_directory_lists_directories_in_path_order() {
    let resources = vec![
        resource("aws_instance", "web", "/tmp/b/main.tf", None),
        resource("aws_instance", "app", "/tmp/a/main.tf", None),
        resource("aws_instance", "db", "/tmp/b/db.tf", None),
    ];
    match get_working_directory(&resources) {
        Err(TfocusError::MixedWorkingDirectories(dirs)) => {
            assert_eq!(dirs, vec!["/tmp/a".to_string(), "/tmp/b".to_string()])
        }
        other => panic!("unexpected result: {:?}", other),
    }
}

#[test]
fn get_working_directory_compares_directories_as_paths() {
    let resources = vec![
        resource("aws_instance", "web", "/tmp//a/main.tf", None),
        resource("aws_instance", "app", "/tmp/a/other.tf", None),
    ];
    assert_eq!(get_working_directory(&resources).unwrap(), "/tmp//a");
}

#[test]
fn terraform_binary_name_defaults_to_terraform() {
    assert_eq!(terraform_binary_name(None), "terraform");
    assert_eq!(terraform_binary_name(Some("tofu".to_string())), "tofu");
}

#[test]
fn terraform_arguments_start_with_operation() {
    let args = terraform_arguments(
        &Operation::Apply,
        &["-target=a.b".to_string(), "-target=c.d".to_string()],
    );
    assert_eq!(
        args,
        vec!["apply".to_string(), "-target=a.b".to_string(), "-target=c.d".to_string()]
    );
    assert!(!args.iter().any(|a| a == "-auto-approve"));
}

#[test]
fn command_outcome_reports_each_ending() {
    let done = command_outcome(
        CommandStatus::Exited { success: true, description: "exit status: 0".to_string() },
        true,
    );
    assert!(matches!(done, Ok(true)));

    let interrupted = command_outcome(
        CommandStatus::Exited { success: true, description: "exit status: 0".to_string() },
        false,
    );
    assert!(matches!(interrupted, Ok(false)));

    match command_outcome(
        CommandStatus::Exited { success: false, description: "exit status: 1".to_string() },
        true,
    ) {
        Err(TfocusError::TerraformError(m)) => {
            assert_eq!(m, "Terraform command failed with status: exit status: 1")
        }
        other => panic!("unexpected result: {:?}", other),
    }

    match command_outcome(CommandStatus::WaitFailed("broken pipe".to_string()), true) {
        Err(TfocusError::CommandExecutionError(m)) => {
            assert_eq!(m, "Failed to execute terraform command: broken pipe")
        }
        other => panic!("unexpected result: {:?}", other),
    }

    match command_outcome(CommandStatus::SpawnFailed("not found".to_string()), true) {
        Err(TfocusError::CommandExecutionError(m)) => assert_eq!(m, "not found"),
        other => panic!("unexpected result: {:?}", other),
    }
}

#[test]
fn execute_with_resources_runs_the_plan() {
    let resources = vec![
        resource("aws_instance", "web", "infra/main.tf", None),
        resource("aws_instance", "web", "infra/main.tf", None),
        resource("aws_instance", "app", "infra/app.tf", Some("0")),
    ];
    let mut seen: Option<(Operation, Vec<String>, String, u32)> = None;
    let result = execute_with_resources(
        &resources,
        Operation::Apply,
        || Ok(7u32),
        |plan: ExecutionPlan, handle: u32| {
            seen = Some((plan.operation, plan.target_options, plan.working_dir, handle));
            Ok(true)
        },
    );
    assert!(result.is_ok());
    let (operation, targets, dir, handle) = seen.unwrap();
    assert_eq!(operation, Operation::Apply);
    assert_eq!(
        targets,
        vec!["-target=aws_instance.web".to_string(), "-target=aws_instance.app[0]".to_string()]
    );
    assert_eq!(dir, "infra");
    assert_eq!(handle, 7);
}

#[test]
fn execute_with_resources_stops_at_setup_failure() {
    let mut ran = false;
    let result = execute_with_resources(
        &[],
        Operation::Plan,
        || Err::<(), TfocusError>(TfocusError::CommandExecutionError("no handler".to_string())),
        |_plan: ExecutionPlan, _h: ()| {
            ran = true;
            Ok(true)
        },
    );
    assert!(matches!(result, Err(TfocusError::CommandExecutionError(ref m)) if m == "no handler"));
    assert!(!ran);
}

#[test]
fn execute_with_resources_refuses_empty_and_mixed_selections() {
    let empty = execute_with_resources(&[], Operation::Plan, || Ok(()), |_p: ExecutionPlan, _h: ()| {
        Ok(true)
    });
    assert!(matches!(empty, Err(TfocusError::ParseError(ref m)) if m == "No targets specified"));

    let mixed = vec![
        resource("aws_instance", "web", "a/main.tf", None),
        resource("aws_instance", "app", "b/main.tf", None),
    ];
    let result = execute_with_resources(&mixed, Operation::Plan, || Ok(()), |_p: ExecutionPlan, _h: ()| {
        Ok(true)
    });
    assert!(matches!(result, Err(TfocusError::MixedWorkingDirectories(_))));
}

#[test]
fn execute_with_resources_passes_run_failure_on() {
    let resources = vec![resource("aws_instance", "web", "main.tf", None)];
    let result = execute_with_resources(&resources, Operation::Plan, || Ok(()), |_p: ExecutionPlan, _h: ()| {
        Err(TfocusError::TerraformError("boom".to_string()))
    });
    assert!(matches!(result, Err(TfocusError::TerraformError(ref m)) if m == "boom"));
}

#[test]
fn mixed_directories_are_listed_once_each_in_path_order() {
    let resources = vec![
        resource("aws_instance", "a", "/tmp/b/x.tf", None),
        resource("aws_instance", "b", "/tmp/a/y.tf", None),
        resource("aws_instance", "c", "/tmp//b/z.tf", None),
        resource("aws_instance", "d", "/tmp/a-b/w.tf", None),
    ];
    match get_working_directory(&resources) {
        Err(TfocusError::MixedWorkingDirectories(dirs)) => assert_eq!(
            dirs,
            vec!["/tmp/a".to_string(), "/tmp/a-b".to_string(), "/tmp/b".to_string()]
        ),
        other => panic!("unexpected result: {:?}", other),
    }
}
