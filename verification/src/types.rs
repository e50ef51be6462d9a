use vstd::prelude::*;
use vstd::string::*;

verus! {

/// The Terraform operation to run.
#[derive(Clone, Copy, Debug, PartialEq, Eq, Structural)]
pub enum Operation {
    Plan,
    Apply,
}

/// The sub-command name of an operation.
pub open spec fn operation_name(op: Operation) -> Seq<char> {
    match op {
        Operation::Plan => "plan"@,
        Operation::Apply => "apply"@,
    }
}

impl Operation {
    /// The sub-command name, `plan` or `apply`.
    pub fn name(&self) -> (s: &'static str)
        ensures
            s@ == operation_name(*self),
    {
        match self {
            Operation::Plan => "plan",
            Operation::Apply => "apply",
        }
    }

    /// The sub-command name as an owned string.
    pub fn to_string(&self) -> (s: String)
        ensures
            s@ == operation_name(*self),
    {
        String::from_str(self.name())
    }
}

/// A resource or module block found in a Terraform file.
#[derive(Clone, Debug, PartialEq, Eq)]
pub struct Resource {
    pub resource_type: String,
    pub name: String,
    pub is_module: bool,
    pub file_path: String,
    pub has_count: bool,
    pub has_for_each: bool,
    pub index: Option<String>,
}

/// The mathematical value of a [`Resource`].
pub struct ResourceView {
    pub resource_type: Seq<char>,
    pub name: Seq<char>,
    pub is_module: bool,
    pub file_path: Seq<char>,
    pub has_count: bool,
    pub has_for_each: bool,
    pub index: Option<Seq<char>>,
}

impl View for Resource {
    type V = ResourceView;

    open spec fn view(&self) -> ResourceView {
        ResourceView {
            resource_type: self.resource_type@,
            name: self.name@,
            is_module: self.is_module,
            file_path: self.file_path@,
            has_count: self.has_count,
            has_for_each: self.has_for_each,
            index: match self.index {
                Some(i) => Some(i@),
                None => None,
            },
        }
    }
}

/// The views of a sequence of resources.
pub open spec fn resources_view(rs: Seq<Resource>) -> Seq<ResourceView> {
    rs.map_values(|r: Resource| r@)
}

/// The address Terraform knows a resource by: `module.NAME` for a module,
/// `TYPE.NAME` for a resource, followed by `[INDEX]` when it has an index.
pub open spec fn target_address(r: ResourceView) -> Seq<char> {
    if r.is_module {
        "module."@ + r.name
    } else {
        match r.index {
            Some(i) => r.resource_type + "."@ + r.name + "["@ + i + "]"@,
            None => r.resource_type + "."@ + r.name,
        }
    }
}

impl Resource {
    /// A copy of this resource.
    pub fn duplicate(&self) -> (r: Resource)
        ensures
            r@ == self@,
    {
        Resource {
            resource_type: self.resource_type.clone(),
            name: self.name.clone(),
            is_module: self.is_module,
            file_path: self.file_path.clone(),
            has_count: self.has_count,
            has_for_each: self.has_for_each,
            index: match &self.index {
                Some(i) => Some(i.clone()),
                None => None,
            },
        }
    }

    /// The Terraform address of this resource (see [`target_address`]).
    pub fn target_string(&self) -> (s: String)
        ensures
            s@ == target_address(self@),
    {
        if self.is_module {
            String::from_str("module.").concat(self.name.as_str())
        } else {
            let base = self.resource_type.clone().concat(".").concat(self.name.as_str());
            match &self.index {
                Some(i) => base.concat("[").concat(i.as_str()).concat("]"),
                None => base,
            }
        }
    }
}

/// What the user picked in the selector.
#[derive(Clone, Debug, PartialEq, Eq)]
pub enum Target {
    File(String),
    Module(String),
    Resource(String, String),
}

/// The mathematical value of a [`Target`].
pub enum TargetView {
    File(Seq<char>),
    Module(Seq<char>),
    Resource(Seq<char>, Seq<char>),
}

impl View for Target {
    type V = TargetView;

    open spec fn view(&self) -> TargetView {
        match self {
            Target::File(p) => TargetView::File(p@),
            Target::Module(n) => TargetView::Module(n@),
            Target::Resource(t, n) => TargetView::Resource(t@, n@),
        }
    }
}

} // verus!
