//! The command surface: each subcommand's options as plain data.
use vstd::prelude::*;

verus! {

/// Options of `register`.
#[derive(Debug, Clone, Copy)]
pub struct RegisterOpts {
    /// Confirmation that an existing solver identity may be replaced.
    pub delete_old_uuid: bool,
}

/// Options of `update`.
#[derive(Debug, Clone, Copy)]
pub struct UpdateOpts {
    /// Fetch the full instance corpus rather than the partial one.
    pub all_instances: bool,
    /// Refresh only the metadata database.
    pub only_metadata: bool,
    /// Replace the local instance database instead of merging into it.
    pub replace_all: bool,
}

/// Options of `export-instance`.
#[derive(Debug, Clone)]
pub struct ImportInstanceOpts {
    /// The instance whose body is exported.
    pub instance: u32,
    /// Where the body goes; the bare root stands for `<iid>.gr`.
    pub output: Option<Vec<u8>>,
    /// Overwrite an existing file.
    pub force: bool,
}

/// Options of `import-solution`.
#[derive(Debug, Clone)]
pub struct ImportSolutionOpts {
    /// The instance the solution answers.
    pub instance: u32,
    /// The file holding the solution; standard input when absent.
    pub solution: Option<Vec<u8>>,
}

/// Options of `init`.
#[derive(Debug, Clone, Copy)]
pub struct InitOpts {}

/// The `register` subcommand.
#[derive(Debug, Clone, Copy)]
pub enum RegisterEnum {
    Register(RegisterOpts),
}

/// The `update` subcommand.
#[derive(Debug, Clone, Copy)]
pub enum UpdateEnum {
    Update(UpdateOpts),
}

/// The `export-instance` subcommand.
#[derive(Debug, Clone)]
pub enum ExportInstanceEnum {
    ExportInstance(ImportInstanceOpts),
}

/// The `import-solution` subcommand.
#[derive(Debug, Clone)]
pub enum ImportSolutionEnum {
    ImportSolution(ImportSolutionOpts),
}

} // verus!
