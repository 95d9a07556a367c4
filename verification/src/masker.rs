//! The masker: redacts every extracted secret inside an entry's texts, and
//! recognizes entries whose secrets are already redacted so they are not
//! counted or masked twice.

use vstd::prelude::*;

use crate::data::{Command, CommandView, entry_inv};
use crate::textutil::{
    chars_of, has_sub, has_substr, replace_all, scan_replace, string_of, views_of,
    lemma_scan_single_contains,
};

verus! {

/// What a computed replacement looks like, as a function of the secret and
/// the masking settings alone.  Named, not written out: the exact
/// character-selection rule lives in the masking crate.
pub uninterp spec fn masked_of(
    text: Seq<char>,
    percentage: u8,
    min_chars: usize,
    mask: Seq<char>,
) -> Seq<char>;

/// Redacts secrets by percentage: at most `100 - percentage` percent of a
/// secret's characters stay visible, the rest become `mask_chars`.
pub struct Masker {
    percentage: u8,
    min_chars: usize,
    mask_chars: String,
}

/// The mathematical shape of a [`Masker`].
pub struct MaskerView {
    pub percentage: u8,
    pub min_chars: usize,
    pub mask_chars: Seq<char>,
}

impl View for Masker {
    type V = MaskerView;

    closed spec fn view(&self) -> MaskerView {
        MaskerView {
            percentage: self.percentage,
            min_chars: self.min_chars,
            mask_chars: self.mask_chars@,
        }
    }
}

/// Relies on `mask_text::Kind::Percentage(..).mask()`: the masked text is a
/// function of the text, the percentage, the minimum length and the mask
/// string alone, and an empty text masks to an empty text.  At a hundred
/// percent or more the crate's visible-length subtraction can wrap (its
/// masked-character count is computed in floating point and may reach or
/// pass the text length), so those percentages are excluded.
#[verifier::external_body]
fn mask_percentage(text: &String, percentage: u8, min_chars: usize, mask_chars: &String) -> (r:
    String)
    requires
        percentage < 100,
    ensures
        text@.len() > 0 ==> r@ == masked_of(text@, percentage, min_chars, mask_chars@),
        text@.len() == 0 ==> r@.len() == 0,
{
    mask_text::Kind::Percentage(text.clone(), percentage, min_chars, mask_chars.clone()).mask()
}

/// The replacement for one secret: empty secrets are never substituted and
/// so get an empty replacement.
pub open spec fn rep_of(secret: Seq<char>, m: MaskerView) -> Seq<char> {
    if secret.len() == 0 {
        Seq::empty()
    } else {
        masked_of(secret, m.percentage, m.min_chars, m.mask_chars)
    }
}

/// The replacements for a whole secret list, index for index.
pub open spec fn reps_of(secrets: Seq<Seq<char>>, m: MaskerView) -> Seq<Seq<char>> {
    secrets.map_values(|s: Seq<char>| rep_of(s, m))
}

/// The entry's visible text already carries every computed replacement: a
/// previous run masked it, and masking again would stack mask characters.
pub open spec fn already_masked(e: CommandView, m: MaskerView) -> bool {
    forall|j: int| 0 <= j < e.secrets.len() ==> has_substr(e.command, rep_of(#[trigger] e.secrets[j], m))
}

/// What masking does to one entry: nothing without detections; detections
/// and secrets are cleared when the entry is already masked; otherwise both
/// texts have every secret replaced, against the original snapshot.
pub open spec fn spec_mask_entry(e: CommandView, m: MaskerView) -> CommandView {
    if e.detections.len() == 0 {
        e
    } else if already_masked(e, m) {
        CommandView {
            shell_type: e.shell_type,
            detections: Seq::empty(),
            command: e.command,
            data: e.data,
            secrets: Seq::empty(),
        }
    } else {
        CommandView {
            shell_type: e.shell_type,
            detections: e.detections,
            command: scan_replace(e.command, e.secrets, reps_of(e.secrets, m)),
            data: scan_replace(e.data, e.secrets, reps_of(e.secrets, m)),
            secrets: e.secrets,
        }
    }
}

/// Masking over a whole entry list, entry by entry.
pub open spec fn spec_mask_entries(es: Seq<CommandView>, m: MaskerView) -> Seq<CommandView> {
    es.map_values(|e: CommandView| spec_mask_entry(e, m))
}

impl Masker {
    /// A masker's settings are meaningful: the percentage leaves the
    /// masking crate's arithmetic in range.
    pub open spec fn wf(&self) -> bool {
        self@.percentage < 100
    }

    /// The default masker: 80 percent masked, texts of at most three
    /// characters masked whole, `*` as the mask character.
    pub fn new() -> (r: Masker)
        ensures
            r.wf(),
            r@.percentage == 80,
            r@.min_chars == 3,
            r@.mask_chars == "*"@,
    {
        Masker { percentage: 80, min_chars: 3, mask_chars: String::from_str("*") }
    }

    /// Masks one entry, returning its new value.
    fn mask_entry(&self, c: &Command) -> (r: Command)
        requires
            self.wf(),
        ensures
            r@ == spec_mask_entry(c@, self@),
    {
        if c.detections.len() == 0 {
            return c.clone();
        }
        // one replacement per secret, computed against the secret alone
        let mut reps: Vec<String> = Vec::new();
        let mut i: usize = 0;
        while i < c.secrets.len()
            invariant
                self.wf(),
                i <= c.secrets@.len(),
                reps@.len() == i,
                forall|k: int| 0 <= k < i ==> (#[trigger] reps@[k])@ == rep_of(
                    c@.secrets[k],
                    self@,
                ),
            decreases c.secrets@.len() - i,
        {
            let rep = mask_percentage(&c.secrets[i], self.percentage, self.min_chars,
                &self.mask_chars);
            proof {
                if c@.secrets[i as int].len() == 0 {
                    assert(rep@ =~= rep_of(c@.secrets[i as int], self@));
                }
            }
            reps.push(rep);
            i += 1;
        }
        assert(reps.deep_view() =~= reps_of(c@.secrets, self@)) by {
            assert(forall|k: int| 0 <= k < reps@.len() ==> reps.deep_view()[k] == (
            #[trigger] reps@[k])@);
        }
        let command_chars = chars_of(c.command.as_str());
        // is every replacement already in the visible text?
        let mut all_present: bool = true;
        let mut j: usize = 0;
        while j < reps.len()
            invariant
                reps@.len() == c.secrets@.len(),
                reps.deep_view() == reps_of(c@.secrets, self@),
                command_chars@ == c@.command,
                j <= reps@.len(),
                all_present == forall|k: int|
                    0 <= k < j ==> has_substr(c@.command, rep_of(#[trigger] c@.secrets[k], self@)),
            decreases reps@.len() - j,
        {
            let rep_chars = chars_of(reps[j].as_str());
            assert(reps.deep_view()[j as int] == reps@[j as int]@);
            assert(reps_of(c@.secrets, self@)[j as int] == rep_of(c@.secrets[j as int], self@));
            assert(rep_chars@ == rep_of(c@.secrets[j as int], self@));
            let present = has_sub(&command_chars, &rep_chars);
            if !present {
                all_present = false;
                assert(!has_substr(c@.command, rep_of(c@.secrets[j as int], self@)));
            }
            j += 1;
        }
        if all_present {
            let r = Command {
                shell_type: c.shell_type,
                detections: Vec::new(),
                command: c.command.clone(),
                data: c.data.clone(),
                secrets: Vec::new(),
            };
            assert(r@.detections =~= Seq::<crate::data::DetectionView>::empty());
            assert(r@.secrets =~= Seq::<Seq<char>>::empty());
            return r;
        }
        // replace every secret in both texts, against the original snapshot
        let mut pats: Vec<Vec<char>> = Vec::new();
        let mut reps_chars: Vec<Vec<char>> = Vec::new();
        let mut k: usize = 0;
        while k < c.secrets.len()
            invariant
                reps@.len() == c.secrets@.len(),
                reps.deep_view() == reps_of(c@.secrets, self@),
                k <= c.secrets@.len(),
                pats@.len() == k,
                reps_chars@.len() == k,
                forall|q: int| 0 <= q < k ==> (#[trigger] pats@[q])@ == c@.secrets[q],
                forall|q: int| 0 <= q < k ==> (#[trigger] reps_chars@[q])@ == rep_of(
                    c@.secrets[q],
                    self@,
                ),
            decreases c.secrets@.len() - k,
        {
            assert(reps.deep_view()[k as int] == reps@[k as int]@);
            assert(reps_of(c@.secrets, self@)[k as int] == rep_of(c@.secrets[k as int], self@));
            assert(c.secrets.deep_view()[k as int] == c.secrets@[k as int]@);
            pats.push(chars_of(c.secrets[k].as_str()));
            reps_chars.push(chars_of(reps[k].as_str()));
            k += 1;
        }
        assert(views_of(pats@) =~= c@.secrets);
        assert(views_of(reps_chars@) =~= reps_of(c@.secrets, self@)) by {
            assert(forall|q: int| 0 <= q < reps_chars@.len() ==> views_of(reps_chars@)[q] == (
            #[trigger] reps_chars@[q])@);
        }
        let data_chars = chars_of(c.data.as_str());
        let new_command = string_of(&replace_all(&command_chars, &pats, &reps_chars));
        let new_data = string_of(&replace_all(&data_chars, &pats, &reps_chars));
        Command {
            shell_type: c.shell_type,
            detections: crate::data::clone_detections(&c.detections),
            command: new_command,
            data: new_data,
            secrets: crate::data::clone_strings(&c.secrets),
        }
    }

    /// Masks every entry in place.  Entries without detections are left
    /// untouched; already-masked entries have their detections and secrets
    /// cleared; all others have every secret redacted in both texts.
    pub fn mask_sensitive_findings(&self, results: &mut Vec<Command>)
        requires
            self.wf(),
        ensures
            final(results).deep_view() == spec_mask_entries(old(results).deep_view(), self@),
    {
        let mut out: Vec<Command> = Vec::new();
        let mut i: usize = 0;
        while i < results.len()
            invariant
                self.wf(),
                results == old(results),
                i <= results@.len(),
                out@.len() == i,
                forall|k: int| 0 <= k < i ==> (#[trigger] out@[k])@ == spec_mask_entry(
                    results@[k]@,
                    self@,
                ),
            decreases results@.len() - i,
        {
            let masked = self.mask_entry(&results[i]);
            out.push(masked);
            i += 1;
        }
        assert(out.deep_view() =~= spec_mask_entries(old(results).deep_view(), self@)) by {
            assert(forall|k: int| 0 <= k < out@.len() ==> out.deep_view()[k] == (
            #[trigger] out@[k])@);
            assert(forall|k: int| 0 <= k < results@.len() ==> old(results).deep_view()[k] == (
            #[trigger] old(results)@[k])@);
        }
        *results = out;
    }
}

/// The replacement pass left every computed replacement visible in the
/// entry's rewritten text.  This is what replacing achieves except when
/// one secret's occurrences are all swallowed by an overlapping,
/// earlier-listed secret; see [`lemma_single_secret_stays_visible`].
pub open spec fn mask_reps_stay_visible(e: CommandView, m: MaskerView) -> bool {
    e.detections.len() > 0 && !already_masked(e, m) ==> forall|j: int|
        0 <= j < e.secrets.len() ==> has_substr(
            scan_replace(e.command, e.secrets, reps_of(e.secrets, m)),
            rep_of(#[trigger] e.secrets[j], m),
        )
}

/// Law: masking is idempotent.  The second pass changes neither text, and
/// reports the entry as holding nothing actionable, whenever the first
/// pass left every computed replacement visible in the entry's text.
pub proof fn lemma_mask_idempotent(e: CommandView, m: MaskerView)
    requires
        entry_inv(e),
        mask_reps_stay_visible(e, m),
    ensures
        spec_mask_entry(spec_mask_entry(e, m), m).command == spec_mask_entry(e, m).command,
        spec_mask_entry(spec_mask_entry(e, m), m).data == spec_mask_entry(e, m).data,
        spec_mask_entry(spec_mask_entry(e, m), m).detections.len() == 0,
        spec_mask_entry(spec_mask_entry(e, m), m).secrets.len() == 0,
{
    let e1 = spec_mask_entry(e, m);
    if e.detections.len() == 0 {
        assert(e1 == e);
    } else if already_masked(e, m) {
        assert(e1.detections.len() == 0);
    } else {
        assert(e1.detections == e.detections && e1.secrets == e.secrets);
        assert(already_masked(e1, m));
    }
}

/// Masking preserves the entry invariant: an entry that comes in with no
/// detections and no secrets goes out that way, and one whose detections
/// are cleared has its secrets cleared with them.
pub proof fn lemma_mask_preserves_entry_inv(e: CommandView, m: MaskerView)
    requires
        entry_inv(e),
    ensures
        entry_inv(spec_mask_entry(e, m)),
{
}

/// The idempotence requirement holds in the common single-secret case: one
/// non-empty secret that occurs in the entry's text leaves its replacement
/// visible after the replacement pass.
pub proof fn lemma_single_secret_stays_visible(e: CommandView, m: MaskerView)
    requires
        e.secrets.len() == 1,
        e.secrets[0].len() > 0,
        has_substr(e.command, e.secrets[0]),
    ensures
        forall|j: int| 0 <= j < e.secrets.len() ==> has_substr(
            scan_replace(e.command, e.secrets, reps_of(e.secrets, m)),
            rep_of(#[trigger] e.secrets[j], m),
        ),
{
    let s = e.secrets[0];
    let r = rep_of(s, m);
    assert(e.secrets =~= seq![s]);
    assert(reps_of(e.secrets, m) =~= seq![r]);
    lemma_scan_single_contains(e.command, s, r);
}

/// Law: masking a whole entry list twice produces the same texts as
/// masking it once, and the second application yields zero entries with
/// detections, under the same per-entry visibility condition.
pub proof fn lemma_mask_entries_idempotent(es: Seq<CommandView>, m: MaskerView)
    requires
        forall|k: int|
            0 <= k < es.len() ==> entry_inv(#[trigger] es[k]) && mask_reps_stay_visible(
                es[k],
                m,
            ),
    ensures
        spec_mask_entries(spec_mask_entries(es, m), m).len() == es.len(),
        forall|k: int|
            0 <= k < es.len() ==> {
                let once = #[trigger] spec_mask_entries(es, m)[k];
                let twice = spec_mask_entries(spec_mask_entries(es, m), m)[k];
                twice.command == once.command && twice.data == once.data
                    && twice.detections.len() == 0 && twice.secrets.len() == 0
            },
{
    let once = spec_mask_entries(es, m);
    let twice = spec_mask_entries(once, m);
    assert forall|k: int|
        0 <= k < es.len() implies {
        let o = #[trigger] spec_mask_entries(es, m)[k];
        let t = spec_mask_entries(spec_mask_entries(es, m), m)[k];
        t.command == o.command && t.data == o.data && t.detections.len() == 0 && t.secrets.len()
            == 0
    } by {
        assert(once[k] == spec_mask_entry(es[k], m));
        assert(twice[k] == spec_mask_entry(once[k], m));
        lemma_mask_idempotent(es[k], m);
    }
}

} // verus!
