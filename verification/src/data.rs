//! The data model: detection rules, annotated history entries, and the
//! library's error values.

use vstd::prelude::*;

use crate::shell::Shell;

verus! {

/// A named detection rule: `test` is a regular expression, `secret_group`
/// the index of the capture group holding the sensitive substring (group 0
/// is the whole match), and `id` a stable identifier used for ignore-listing.
pub struct Detection {
    pub test: String,
    pub name: String,
    pub secret_group: u8,
    pub id: String,
}

/// The mathematical shape of a [`Detection`].
pub struct DetectionView {
    pub test: Seq<char>,
    pub name: Seq<char>,
    pub secret_group: u8,
    pub id: Seq<char>,
}

impl View for Detection {
    type V = DetectionView;

    open spec fn view(&self) -> DetectionView {
        DetectionView {
            test: self.test@,
            name: self.name@,
            secret_group: self.secret_group,
            id: self.id@,
        }
    }
}

impl DeepView for Detection {
    type V = DetectionView;

    open spec fn deep_view(&self) -> DetectionView {
        self.view()
    }
}

impl Clone for Detection {
    fn clone(&self) -> (r: Detection)
        ensures
            r@ == self@,
    {
        Detection {
            test: self.test.clone(),
            name: self.name.clone(),
            secret_group: self.secret_group,
            id: self.id.clone(),
        }
    }
}

/// One history entry, annotated with the rules it matched and the secrets
/// they captured.  `command` is the text shown and matched against;
/// `data` is the exact serialized form written back to the history file.
pub struct Command {
    pub shell_type: Shell,
    pub detections: Vec<Detection>,
    pub command: String,
    pub data: String,
    pub secrets: Vec<String>,
}

/// The mathematical shape of a [`Command`].
pub struct CommandView {
    pub shell_type: Shell,
    pub detections: Seq<DetectionView>,
    pub command: Seq<char>,
    pub data: Seq<char>,
    pub secrets: Seq<Seq<char>>,
}

impl View for Command {
    type V = CommandView;

    open spec fn view(&self) -> CommandView {
        CommandView {
            shell_type: self.shell_type,
            detections: self.detections.deep_view(),
            command: self.command@,
            data: self.data@,
            secrets: self.secrets.deep_view(),
        }
    }
}

impl DeepView for Command {
    type V = CommandView;

    open spec fn deep_view(&self) -> CommandView {
        self.view()
    }
}

impl Clone for Command {
    fn clone(&self) -> (r: Command)
        ensures
            r@ == self@,
    {
        let r = Command {
            shell_type: self.shell_type,
            detections: clone_detections(&self.detections),
            command: self.command.clone(),
            data: self.data.clone(),
            secrets: clone_strings(&self.secrets),
        };
        assert(r.detections.deep_view() =~= self.detections.deep_view());
        assert(r.secrets.deep_view() =~= self.secrets.deep_view());
        r
    }
}

/// Copies a rule list, field for field.
pub fn clone_detections(v: &Vec<Detection>) -> (r: Vec<Detection>)
    ensures
        r.deep_view() =~= v.deep_view(),
{
    let mut r: Vec<Detection> = Vec::new();
    let mut i: usize = 0;
    while i < v.len()
        invariant
            i <= v@.len(),
            r@.len() == i,
            forall|k: int| 0 <= k < i ==> r.deep_view()[k] == v.deep_view()[k],
        decreases v@.len() - i,
    {
        r.push(v[i].clone());
        i += 1;
    }
    r
}

/// Copies a list of strings.
pub fn clone_strings(v: &Vec<String>) -> (r: Vec<String>)
    ensures
        r.deep_view() =~= v.deep_view(),
{
    let mut r: Vec<String> = Vec::new();
    let mut i: usize = 0;
    while i < v.len()
        invariant
            i <= v@.len(),
            r@.len() == i,
            forall|k: int| 0 <= k < i ==> r.deep_view()[k] == v.deep_view()[k],
        decreases v@.len() - i,
    {
        r.push(v[i].clone());
        i += 1;
    }
    r
}

/// The model invariant of an entry: one with no matched rule carries no
/// secrets either.
pub open spec fn entry_inv(e: CommandView) -> bool {
    e.detections.len() == 0 ==> e.secrets.len() == 0
}

/// What the library itself can fail on: a structured history store that does
/// not decode, or a timestamp outside the representable range.
#[derive(Clone, Copy, Debug, PartialEq, Eq, Structural)]
pub enum ShellclearError {
    Parse,
    Timestamp,
}

impl ShellclearError {
    /// A short human-readable description of the failure.
    pub fn message(&self) -> (r: &'static str)
        ensures
            *self is Parse ==> r@ == "could not decode the history file"@,
            *self is Timestamp ==> r@ == "timestamp out of range"@,
    {
        match self {
            ShellclearError::Parse => "could not decode the history file",
            ShellclearError::Timestamp => "timestamp out of range",
        }
    }
}

} // verus!
