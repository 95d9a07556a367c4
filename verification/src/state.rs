//! One shell's working context: its history file, and where backups and
//! the stash for that shell live under the state folder.  The file copies
//! themselves are the caller's business; the library computes the paths.

use vstd::prelude::*;

use crate::shell::{History, HistoryView, Shell, spec_shell_name};

verus! {

/// The state folder and the shell history it serves.
pub struct ShellContext {
    pub app_folder_path: String,
    pub history: History,
}

/// The mathematical shape of a [`ShellContext`].
pub struct ShellContextView {
    pub app_folder_path: Seq<char>,
    pub history: HistoryView,
}

impl View for ShellContext {
    type V = ShellContextView;

    open spec fn view(&self) -> ShellContextView {
        ShellContextView { app_folder_path: self.app_folder_path@, history: self.history@ }
    }
}

impl Clone for ShellContext {
    fn clone(&self) -> (r: ShellContext)
        ensures
            r@ == self@,
    {
        ShellContext {
            app_folder_path: self.app_folder_path.clone(),
            history: self.history.clone(),
        }
    }
}

/// Where one shell's backups live under the state folder.
pub open spec fn spec_backup_folder(ctx: ShellContextView) -> Seq<char> {
    ctx.app_folder_path + seq!['/'] + "backups"@ + seq!['/'] + spec_shell_name(ctx.history.shell)
}

/// Where the stash lives under the state folder.
pub open spec fn spec_stash_folder(ctx: ShellContextView) -> Seq<char> {
    ctx.app_folder_path + seq!['/'] + "stash"@
}

/// Where this shell's stashed history file would live.
pub open spec fn spec_stash_file_path(ctx: ShellContextView) -> Seq<char> {
    spec_stash_folder(ctx) + seq!['/'] + ctx.history.file_name
}

impl ShellContext {
    /// The backup folder for this shell's history.
    pub fn get_backup_folder(&self) -> (r: String)
        ensures
            r@ == spec_backup_folder(self@),
    {
        let mut out = String::new();
        out.append(self.app_folder_path.as_str());
        out.append("/");
        out.append("backups");
        out.append("/");
        out.append(self.history.shell.name());
        proof {
            reveal_strlit("/");
            assert(out@ =~= spec_backup_folder(self@));
        }
        out
    }

    /// The stash folder.
    pub fn get_stash_folder(&self) -> (r: String)
        ensures
            r@ == spec_stash_folder(self@),
    {
        let mut out = String::new();
        out.append(self.app_folder_path.as_str());
        out.append("/");
        out.append("stash");
        proof {
            reveal_strlit("/");
            assert(out@ =~= spec_stash_folder(self@));
        }
        out
    }

    /// The path this shell's history is stashed at.  Whether a file exists
    /// there is for the caller to find out.
    pub fn get_stash_file_path(&self) -> (r: String)
        ensures
            r@ == spec_stash_file_path(self@),
    {
        let folder = self.get_stash_folder();
        let mut out = String::new();
        out.append(folder.as_str());
        out.append("/");
        out.append(self.history.file_name.as_str());
        proof {
            reveal_strlit("/");
            assert(out@ =~= spec_stash_file_path(self@));
        }
        out
    }
}

} // verus!
