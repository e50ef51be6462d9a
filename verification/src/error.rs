use vstd::prelude::*;

verus! {

/// Errors of the tool. Outside error values (I/O, regular expressions) are
/// carried by their message.
#[derive(Debug)]
pub enum TfocusError {
    Io(String),
    ParseError(String),
    InvalidTargetSelection,
    TerraformError(String),
    NoTerraformFiles,
    RegexError(String),
    CommandExecutionError(String),
    MixedWorkingDirectories(Vec<String>),
}

/// The mathematical value of a [`TfocusError`].
pub enum TfocusErrorView {
    Io(Seq<char>),
    ParseError(Seq<char>),
    InvalidTargetSelection,
    TerraformError(Seq<char>),
    NoTerraformFiles,
    RegexError(Seq<char>),
    CommandExecutionError(Seq<char>),
    MixedWorkingDirectories(Seq<Seq<char>>),
}

/// The views of a sequence of strings.
pub open spec fn strings_view(v: Seq<String>) -> Seq<Seq<char>> {
    v.map_values(|s: String| s@)
}

impl View for TfocusError {
    type V = TfocusErrorView;

    open spec fn view(&self) -> TfocusErrorView {
        match self {
            TfocusError::Io(m) => TfocusErrorView::Io(m@),
            TfocusError::ParseError(m) => TfocusErrorView::ParseError(m@),
            TfocusError::InvalidTargetSelection => TfocusErrorView::InvalidTargetSelection,
            TfocusError::TerraformError(m) => TfocusErrorView::TerraformError(m@),
            TfocusError::NoTerraformFiles => TfocusErrorView::NoTerraformFiles,
            TfocusError::RegexError(m) => TfocusErrorView::RegexError(m@),
            TfocusError::CommandExecutionError(m) => TfocusErrorView::CommandExecutionError(m@),
            TfocusError::MixedWorkingDirectories(d) => TfocusErrorView::MixedWorkingDirectories(
                strings_view(d@),
            ),
        }
    }
}

} // verus!
