# tfocus (verified core)

tfocus lets the user pick Terraform resources, files or modules and runs
`terraform plan` or `terraform apply` with `-target=` options for them.

- `src/` is the library, verified with Verus:
  - `types.rs`: operations, resources and their Terraform addresses, targets;
  - `selection.rs`: the numbered selection list, parsing the chosen entries back into
    targets, collecting, directory-checking and deduplicating resources,
    settling the operation;
  - `workdir.rs`: the directory Terraform runs in and the single-directory check;
  - `executor.rs`: target options, the command line, the run's outcome, and the
    order in which a run is prepared and started;
  - `input.rs`: what each key press means while the operation is chosen;
  - `project.rs`: looking resources up by target;
  - `text.rs`: decimal numbers and column padding;
  - `paths.rs`: the standard library's path operations, with trusted contracts.
- `app/` is the terminal and process side: keyboard input, Ctrl+C handling,
  starting Terraform, printing, command-line options and the error messages.
- `tests/` runs the library on concrete values.
