//! What the shell decides about its windows: whether a project gets a new
//! window or an open one comes to the front.

use crate::state::optional_view;
use crate::text::{append, from_chars, to_chars};
use vstd::prelude::*;

verus! {

/// The error of the crate `serde_json`.
#[verifier::external_type_specification]
#[verifier::external_body]
pub struct ExJsonError(serde_json::Error);

/// The JSON text that `serde_json::to_string` makes of a string, or `None`
/// where it reports an error.
pub uninterp spec fn json_string(s: Seq<char>) -> Option<Seq<char>>;

/// `serde_json::to_string`, for a string: the string as a JSON text.
#[verifier::external_body]
fn to_json_string(s: &str) -> (r: Result<String, serde_json::Error>)
    ensures
        match r {
            Ok(text) => json_string(s@) == Some(text@),
            Err(_) => json_string(s@) is None,
        },
{
    serde_json::to_string(s)
}

/// The title of a project's window, given the last component of its root
/// path: that component, or the whole path where there is none.
pub fn title_of(component: Option<String>, root_path: &str) -> (r: String)
    ensures
        r@ == match component {
            Some(name) => name@,
            None => root_path@,
        },
{
    match component {
        Some(name) => name,
        None => root_path.to_owned(),
    }
}

/// The script that tells a new window which project it shows.
pub open spec fn init_script_of(json: Seq<char>) -> Seq<char> {
    "window.__RPO_WIZ_PROJECT_ROOT__ = "@ + json + ";"@
}

/// What is to be done to show a project.
#[derive(Debug, PartialEq, Eq)]
pub enum OpenPlan {
    /// The window with this label comes to the front.
    Focus { label: String },
    /// A window is made with this label, title and script, and is recorded
    /// as the window of the project.
    Create { label: String, title: String, init_script: String },
}

/// The mathematical value of an `OpenPlan`.
pub enum OpenPlanView {
    Focus { label: Seq<char> },
    Create { label: Seq<char>, title: Seq<char>, init_script: Seq<char> },
}

impl View for OpenPlan {
    type V = OpenPlanView;

    open spec fn view(&self) -> OpenPlanView {
        match self {
            OpenPlan::Focus { label } => OpenPlanView::Focus { label: label@ },
            OpenPlan::Create { label, title, init_script } => OpenPlanView::Create {
                label: label@,
                title: title@,
                init_script: init_script@,
            },
        }
    }
}

/// How a project is shown. The window that the registry names for the
/// project comes to the front, if it is open; else the window with the
/// project's own label, if that is open; else a window is made. `None` where
/// the root path cannot be written as JSON.
pub open spec fn open_plan(
    root_path: Seq<char>,
    label: Seq<char>,
    title: Seq<char>,
    registered_window: Option<Seq<char>>,
    label_is_open: bool,
) -> Option<OpenPlanView> {
    match registered_window {
        Some(open_label) => Some(OpenPlanView::Focus { label: open_label }),
        None => if label_is_open {
            Some(OpenPlanView::Focus { label })
        } else {
            match json_string(root_path) {
                Some(json) => Some(
                    OpenPlanView::Create { label, title, init_script: init_script_of(json) },
                ),
                None => None,
            }
        },
    }
}

/// Decides how a project is shown. `label` and `title` are those of the
/// project's own window; `registered_window` is the label that the registry
/// has for the project, where a window with that label is open;
/// `label_is_open` tells whether a window with the project's own label is open.
pub fn plan_open_project(
    root_path: &str,
    label: String,
    title: String,
    registered_window: Option<String>,
    label_is_open: bool,
) -> (r: Result<OpenPlan, serde_json::Error>)
    ensures
        match r {
            Ok(plan) => open_plan(
                root_path@,
                label@,
                title@,
                optional_view(registered_window),
                label_is_open,
            ) == Some(plan@),
            Err(_) => open_plan(
                root_path@,
                label@,
                title@,
                optional_view(registered_window),
                label_is_open,
            ) is None,
        },
{
    match registered_window {
        Some(open_label) => Ok(OpenPlan::Focus { label: open_label }),
        None => {
            if label_is_open {
                Ok(OpenPlan::Focus { label })
            } else {
                match to_json_string(root_path) {
                    Ok(json) => {
                        let mut script = to_chars("window.__RPO_WIZ_PROJECT_ROOT__ = ");
                        append(&mut script, &to_chars(json.as_str()));
                        append(&mut script, &to_chars(";"));
                        Ok(OpenPlan::Create { label, title, init_script: from_chars(&script) })
                    },
                    Err(e) => Err(e),
                }
            }
        },
    }
}

/// What is to be done when the program is started, or started once more
/// while it runs.
#[derive(Debug, PartialEq, Eq)]
pub enum LaunchPlan {
    /// The project at this path is shown; where `closes_main` is set, the
    /// main window is closed first.
    OpenProject { path: String, closes_main: bool },
    /// The blank window with this label comes to the front.
    FocusBlank { label: String },
    /// The main window is shown and recorded as blank.
    ShowMain,
    /// A new blank window is made.
    CreateBlank,
    /// Nothing is done.
    Nothing,
}

/// The mathematical value of a `LaunchPlan`.
pub enum LaunchPlanView {
    OpenProject { path: Seq<char>, closes_main: bool },
    FocusBlank { label: Seq<char> },
    ShowMain,
    CreateBlank,
    Nothing,
}

impl View for LaunchPlan {
    type V = LaunchPlanView;

    open spec fn view(&self) -> LaunchPlanView {
        match self {
            LaunchPlan::OpenProject { path, closes_main } => LaunchPlanView::OpenProject {
                path: path@,
                closes_main: *closes_main,
            },
            LaunchPlan::FocusBlank { label } => LaunchPlanView::FocusBlank { label: label@ },
            LaunchPlan::ShowMain => LaunchPlanView::ShowMain,
            LaunchPlan::CreateBlank => LaunchPlanView::CreateBlank,
            LaunchPlan::Nothing => LaunchPlanView::Nothing,
        }
    }
}

/// The path that is opened for a path argument: the resolved path, or the
/// argument as it stands where it could not be resolved.
pub open spec fn path_to_open(path_arg: Seq<char>, resolved: Option<Seq<char>>) -> Seq<char> {
    match resolved {
        Some(path) => path,
        None => path_arg,
    }
}

/// Decides what a second start of the program does in the running one: with
/// a path argument the project is shown; without one a blank window comes to
/// the front, or is made where none is open. `resolved` is the path argument
/// made absolute, `blank_window` the label of an open blank window.
pub fn plan_second_instance(
    path_arg: Option<String>,
    resolved: Option<String>,
    blank_window: Option<String>,
) -> (r: LaunchPlan)
    ensures
        r@ == match path_arg {
            Some(arg) => LaunchPlanView::OpenProject {
                path: path_to_open(arg@, optional_view(resolved)),
                closes_main: false,
            },
            None => match blank_window {
                Some(label) => LaunchPlanView::FocusBlank { label: label@ },
                None => LaunchPlanView::CreateBlank,
            },
        },
{
    match path_arg {
        Some(arg) => match resolved {
            Some(path) => LaunchPlan::OpenProject { path, closes_main: false },
            None => LaunchPlan::OpenProject { path: arg, closes_main: false },
        },
        None => match blank_window {
            Some(label) => LaunchPlan::FocusBlank { label },
            None => LaunchPlan::CreateBlank,
        },
    }
}

/// What the first start of the program does. With a path argument the
/// project is shown in place of the main window. Without one the main window
/// is shown, or a blank window is made where there is no main window. Where
/// the arguments could not be read, the main window is shown if there is one.
pub open spec fn startup_plan(
    arguments: Option<Option<Seq<char>>>,
    resolved: Option<Seq<char>>,
    has_main_window: bool,
) -> LaunchPlanView {
    match arguments {
        Some(Some(arg)) => LaunchPlanView::OpenProject {
            path: path_to_open(arg, resolved),
            closes_main: true,
        },
        Some(None) => if has_main_window {
            LaunchPlanView::ShowMain
        } else {
            LaunchPlanView::CreateBlank
        },
        None => if has_main_window {
            LaunchPlanView::ShowMain
        } else {
            LaunchPlanView::Nothing
        },
    }
}

/// The view of the arguments of a start: `None` where they could not be
/// read, else the path argument, if one was given.
pub open spec fn arguments_view(arguments: Option<Option<String>>) -> Option<Option<Seq<char>>> {
    match arguments {
        Some(path_arg) => Some(optional_view(path_arg)),
        None => None,
    }
}

/// Decides what the first start of the program does. `arguments` is `None`
/// where the arguments could not be read, else the path argument, if one was
/// given; `resolved` is the path argument made absolute.
pub fn plan_startup(
    arguments: Option<Option<String>>,
    resolved: Option<String>,
    has_main_window: bool,
) -> (r: LaunchPlan)
    ensures
        r@ == startup_plan(arguments_view(arguments), optional_view(resolved), has_main_window),
{
    match arguments {
        Some(Some(arg)) => match resolved {
            Some(path) => LaunchPlan::OpenProject { path, closes_main: true },
            None => LaunchPlan::OpenProject { path: arg, closes_main: true },
        },
        Some(None) => {
            if has_main_window {
                LaunchPlan::ShowMain
            } else {
                LaunchPlan::CreateBlank
            }
        },
        None => {
            if has_main_window {
                LaunchPlan::ShowMain
            } else {
                LaunchPlan::Nothing
            }
        },
    }
}

} // verus!
