//! The configuration folder layout, and the helpers the ignore-list dialog
//! is fed from.  Reading and writing the files themselves is the caller's
//! business; the library computes the paths and the choice lists.

use vstd::prelude::*;

use crate::data::{Detection, DetectionView};
use crate::engine::contains_string;

verus! {

/// Where the user's own pattern and ignore files live.
pub struct Config {
    pub app_path: String,
    pub sensitive_commands_path: String,
    pub ignore_sensitive_path: String,
}

/// The configuration folder under a root directory.
pub open spec fn spec_base_app_folder(root: Seq<char>) -> Seq<char> {
    root + seq!['/'] + "shellclear"@
}

impl Config {
    /// The configuration folder under the given root directory.
    pub fn get_base_app_folder(root: &str) -> (r: String)
        ensures
            r@ == spec_base_app_folder(root@),
    {
        let mut out = String::new();
        out.append(root);
        out.append("/");
        out.append("shellclear");
        proof {
            reveal_strlit("/");
            assert(out@ =~= spec_base_app_folder(root@));
        }
        out
    }

    /// The configuration paths rooted at the given directory: the app
    /// folder, the user pattern file and the ignore file inside it.
    pub fn with_custom_path(root: &str) -> (r: Config)
        ensures
            r.app_path@ == spec_base_app_folder(root@),
            r.sensitive_commands_path@ == spec_base_app_folder(root@) + seq!['/']
                + "sensitive-patterns.yaml"@,
            r.ignore_sensitive_path@ == spec_base_app_folder(root@) + seq!['/'] + "ignores.yaml"@,
    {
        let app_path = Config::get_base_app_folder(root);
        let mut sensitive = String::new();
        sensitive.append(app_path.as_str());
        sensitive.append("/");
        sensitive.append("sensitive-patterns.yaml");
        let mut ignore = String::new();
        ignore.append(app_path.as_str());
        ignore.append("/");
        ignore.append("ignores.yaml");
        proof {
            reveal_strlit("/");
        }
        Config { app_path, sensitive_commands_path: sensitive, ignore_sensitive_path: ignore }
    }
}

impl Clone for Config {
    fn clone(&self) -> (r: Config)
        ensures
            r.app_path@ == self.app_path@,
            r.sensitive_commands_path@ == self.sensitive_commands_path@,
            r.ignore_sensitive_path@ == self.ignore_sensitive_path@,
    {
        Config {
            app_path: self.app_path.clone(),
            sensitive_commands_path: self.sensitive_commands_path.clone(),
            ignore_sensitive_path: self.ignore_sensitive_path.clone(),
        }
    }
}

/// The names of the rules whose id is not on the ignore list, in order.
pub open spec fn spec_names_not_ignored(
    ps: Seq<DetectionView>,
    ig: Seq<Seq<char>>,
) -> Seq<Seq<char>>
    decreases ps.len(),
{
    if ps.len() == 0 {
        Seq::empty()
    } else {
        let rest = spec_names_not_ignored(ps.drop_last(), ig);
        if ig.contains(ps.last().id) {
            rest
        } else {
            rest.push(ps.last().name)
        }
    }
}

/// The names of the rules whose id is on the ignore list, in order.
pub open spec fn spec_names_ignored(ps: Seq<DetectionView>, ig: Seq<Seq<char>>) -> Seq<Seq<char>>
    decreases ps.len(),
{
    if ps.len() == 0 {
        Seq::empty()
    } else {
        let rest = spec_names_ignored(ps.drop_last(), ig);
        if ig.contains(ps.last().id) {
            rest.push(ps.last().name)
        } else {
            rest
        }
    }
}

/// Splits the rule names for the ignore dialog: first the selectable rules
/// (not yet ignored), then the pre-selected ones (already ignored).
pub fn get_patter_ignore_multi_choice(patterns: &Vec<Detection>, ignores: &Vec<String>) -> (r: (
    Vec<String>,
    Vec<String>,
))
    ensures
        r.0.deep_view() == spec_names_not_ignored(patterns.deep_view(), ignores.deep_view()),
        r.1.deep_view() == spec_names_ignored(patterns.deep_view(), ignores.deep_view()),
{
    let ghost gp = patterns.deep_view();
    let ghost gig = ignores.deep_view();
    let mut selectable: Vec<String> = Vec::new();
    let mut preselected: Vec<String> = Vec::new();
    let mut i: usize = 0;
    proof {
        assert(gp.take(0) =~= Seq::<DetectionView>::empty());
    }
    while i < patterns.len()
        invariant
            gp == patterns.deep_view(),
            gig == ignores.deep_view(),
            i <= patterns@.len(),
            selectable.deep_view() == spec_names_not_ignored(gp.take(i as int), gig),
            preselected.deep_view() == spec_names_ignored(gp.take(i as int), gig),
        decreases patterns@.len() - i,
    {
        proof {
            assert(gp.take(i + 1).drop_last() =~= gp.take(i as int));
            assert(gp.take(i + 1).last() == gp[i as int]);
            assert(gp[i as int] == (patterns@[i as int])@);
        }
        let ghost sel0 = selectable.deep_view();
        let ghost pre0 = preselected.deep_view();
        if contains_string(ignores, &patterns[i].id) {
            preselected.push(patterns[i].name.clone());
            proof {
                assert(preselected.deep_view() =~= pre0.push(gp[i as int].name)) by {
                    assert(forall|q: int|
                        0 <= q < preselected@.len() ==> #[trigger] preselected.deep_view()[q] == (
                        preselected@[q])@);
                }
            }
        } else {
            selectable.push(patterns[i].name.clone());
            proof {
                assert(selectable.deep_view() =~= sel0.push(gp[i as int].name)) by {
                    assert(forall|q: int|
                        0 <= q < selectable@.len() ==> #[trigger] selectable.deep_view()[q] == (
                        selectable@[q])@);
                }
            }
        }
        i += 1;
    }
    proof {
        assert(gp.take(patterns@.len() as int) =~= gp);
    }
    (selectable, preselected)
}

} // verus!
