//! The pattern registry and the detection engine: merges built-in and
//! external rules, drops ignored ones, matches every entry of a history
//! against every active rule, extracts the captured secrets, and masks them.

use vstd::prelude::*;

use crate::data::{Command, CommandView, Detection, DetectionView, ShellclearError, entry_inv};
use crate::masker::{Masker, MaskerView, spec_mask_entries};
use crate::shell::{
    FishHistory, Shell, fish_parse, fish_record_text, FishHistoryView, parse_fish_history,
    serialize_fish_record,
};
use crate::textutil::{
    chars_of, first_index_of, lemma_first_index_is, lemma_first_index_props, line_split,
    split_lines, string_of, tail_from, views_of,
};

verus! {

/// What the regular-expression engine answers for one rule on one text, as
/// a function of the pattern, the text and the capture-group index alone:
/// `None` when the pattern does not match the text (or does not compile),
/// `Some(None)` when it matches but the group captured nothing, and
/// `Some(Some(s))` when the group captured `s`.
pub uninterp spec fn regex_find(pattern: Seq<char>, text: Seq<char>, group: u8) -> Option<
    Option<Seq<char>>,
>;

/// Relies on `regex::Regex::new`, `Regex::captures` and `Captures::get` of
/// the regex crate: their combined answer depends on the pattern, the text
/// and the group index alone, and is reported through [`regex_find`].
#[verifier::external_body]
fn regex_capture(pattern: &String, text: &String, group: u8) -> (r: Option<Option<String>>)
    ensures
        match r {
            None => regex_find(pattern@, text@, group) is None,
            Some(None) => regex_find(pattern@, text@, group) == Some(Option::<Seq<char>>::None),
            Some(Some(s)) => regex_find(pattern@, text@, group) == Some(Some(s@)),
        },
{
    match regex::Regex::new(pattern.as_str()) {
        Ok(re) => match re.captures(text.as_str()) {
            Some(caps) => Some(caps.get(group as usize).map(|m| m.as_str().to_string())),
            None => None,
        },
        Err(_) => None,
    }
}

/// The rule matches somewhere in the text.
pub open spec fn pattern_matches(p: DetectionView, text: Seq<char>) -> bool {
    regex_find(p.test, text, p.secret_group) is Some
}

/// The secret the rule extracts from the text: the capture of its group,
/// when the rule matches, the group is present and the capture non-empty.
pub open spec fn pattern_secret(p: DetectionView, text: Seq<char>) -> Option<Seq<char>> {
    match regex_find(p.test, text, p.secret_group) {
        Some(Some(s)) => if s.len() > 0 {
            Some(s)
        } else {
            None
        },
        _ => None,
    }
}

/// The rules of `ps` that match `text`, in registry order.
pub open spec fn matched_of(ps: Seq<DetectionView>, text: Seq<char>) -> Seq<DetectionView>
    decreases ps.len(),
{
    if ps.len() == 0 {
        Seq::empty()
    } else {
        let rest = matched_of(ps.drop_last(), text);
        if pattern_matches(ps.last(), text) {
            rest.push(ps.last())
        } else {
            rest
        }
    }
}

/// The secrets the rules of `ps` extract from `text`, in registry order,
/// one per matching rule with a non-empty capture.
pub open spec fn secrets_of(ps: Seq<DetectionView>, text: Seq<char>) -> Seq<Seq<char>>
    decreases ps.len(),
{
    if ps.len() == 0 {
        Seq::empty()
    } else {
        let rest = secrets_of(ps.drop_last(), text);
        match pattern_secret(ps.last(), text) {
            Some(s) => rest.push(s),
            None => rest,
        }
    }
}

/// A rule that extracted a secret matched, so an entry without matches has
/// no secrets either.
pub proof fn lemma_no_match_no_secrets(ps: Seq<DetectionView>, text: Seq<char>)
    requires
        forall|k: int| 0 <= k < ps.len() ==> !pattern_matches(#[trigger] ps[k], text),
    ensures
        matched_of(ps, text) == Seq::<DetectionView>::empty(),
        secrets_of(ps, text) == Seq::<Seq<char>>::empty(),
    decreases ps.len(),
{
    if ps.len() > 0 {
        assert(!pattern_matches(ps.last(), text));
        assert(pattern_secret(ps.last(), text) is None);
        assert forall|k: int| 0 <= k < ps.drop_last().len() implies !pattern_matches(
            #[trigger] ps.drop_last()[k],
            text,
        ) by {
            assert(ps.drop_last()[k] == ps[k]);
        }
        lemma_no_match_no_secrets(ps.drop_last(), text);
    }
}

/// When no rule matched, no rule extracted a secret either: a rule only
/// contributes a secret by matching.
pub proof fn lemma_no_matches_means_no_secrets(ps: Seq<DetectionView>, text: Seq<char>)
    requires
        matched_of(ps, text).len() == 0,
    ensures
        secrets_of(ps, text).len() == 0,
    decreases ps.len(),
{
    if ps.len() > 0 {
        assert(!pattern_matches(ps.last(), text));
        assert(pattern_secret(ps.last(), text) is None);
        lemma_no_matches_means_no_secrets(ps.drop_last(), text);
    }
}

/// Every property shared by all rules of `ps` is shared by the matching
/// ones: here, not carrying an ignored id.
proof fn lemma_matched_of_keeps_exclusion(
    ps: Seq<DetectionView>,
    text: Seq<char>,
    id: Seq<char>,
)
    requires
        forall|k: int| 0 <= k < ps.len() ==> (#[trigger] ps[k]).id != id,
    ensures
        forall|k: int|
            0 <= k < matched_of(ps, text).len() ==> (#[trigger] matched_of(ps, text)[k]).id != id,
    decreases ps.len(),
{
    if ps.len() > 0 {
        assert forall|k: int| 0 <= k < ps.drop_last().len() implies (
        #[trigger] ps.drop_last()[k]).id != id by {
            assert(ps.drop_last()[k] == ps[k]);
        }
        lemma_matched_of_keeps_exclusion(ps.drop_last(), text, id);
        let m = matched_of(ps, text);
        let rest = matched_of(ps.drop_last(), text);
        assert forall|k: int| 0 <= k < m.len() implies (#[trigger] m[k]).id != id by {
            if pattern_matches(ps.last(), text) && k == m.len() - 1 {
                assert(m[k] == ps.last());
                assert(ps.last() == ps[ps.len() - 1]);
            } else {
                assert(m[k] == rest[k]);
            }
        }
    }
}

/// The active rules: built-in rules first, external ones appended, and
/// every rule whose id is on the ignore list dropped.
pub open spec fn keep_unignored(ps: Seq<DetectionView>, ig: Seq<Seq<char>>) -> Seq<DetectionView>
    decreases ps.len(),
{
    if ps.len() == 0 {
        Seq::empty()
    } else {
        let rest = keep_unignored(ps.drop_last(), ig);
        if ig.contains(ps.last().id) {
            rest
        } else {
            rest.push(ps.last())
        }
    }
}

/// What the registry loads: the merged rule list, filtered by the ignore
/// list when one is supplied.
pub open spec fn spec_registry(
    builtin: Seq<DetectionView>,
    external: Option<Seq<DetectionView>>,
    ignores: Option<Seq<Seq<char>>>,
) -> Seq<DetectionView> {
    let merged = builtin + (match external {
        Some(e) => e,
        None => Seq::<DetectionView>::empty(),
    });
    match ignores {
        Some(ig) => keep_unignored(merged, ig),
        None => merged,
    }
}

/// No surviving rule carries an ignored id.
proof fn lemma_keep_unignored_excludes(ps: Seq<DetectionView>, ig: Seq<Seq<char>>, id: Seq<char>)
    requires
        ig.contains(id),
    ensures
        forall|k: int|
            0 <= k < keep_unignored(ps, ig).len() ==> (#[trigger] keep_unignored(ps, ig)[k]).id
                != id,
    decreases ps.len(),
{
    if ps.len() > 0 {
        lemma_keep_unignored_excludes(ps.drop_last(), ig, id);
        let kept = keep_unignored(ps, ig);
        let rest = keep_unignored(ps.drop_last(), ig);
        assert forall|k: int| 0 <= k < kept.len() implies (#[trigger] kept[k]).id != id by {
            if !ig.contains(ps.last().id) && k == kept.len() - 1 {
                assert(kept[k] == ps.last());
            } else {
                assert(kept[k] == rest[k]);
            }
        }
    }
}

/// Law: ignore-list exclusion.  A rule id on the ignore list never appears
/// among any entry's matched rules, whatever its pattern would match: the
/// registry drops such rules before detection ever runs.
pub proof fn lemma_ignored_id_never_matched(
    builtin: Seq<DetectionView>,
    external: Option<Seq<DetectionView>>,
    ignores: Seq<Seq<char>>,
    text: Seq<char>,
    id: Seq<char>,
)
    requires
        ignores.contains(id),
    ensures
        forall|k: int|
            0 <= k < matched_of(spec_registry(builtin, external, Some(ignores)), text).len()
                ==> (#[trigger] matched_of(
                spec_registry(builtin, external, Some(ignores)),
                text,
            )[k]).id != id,
{
    let active = spec_registry(builtin, external, Some(ignores));
    let merged = builtin + (match external {
        Some(e) => e,
        None => Seq::<DetectionView>::empty(),
    });
    lemma_keep_unignored_excludes(merged, ignores, id);
    lemma_matched_of_keeps_exclusion(active, text, id);
}

/// The display text of a line-oriented history entry: everything after the
/// first semicolon, which strips the metadata prefix of extended formats;
/// the whole line when there is none.
pub open spec fn display_of_line(line: Seq<char>) -> Seq<char> {
    match first_index_of(line, ';') {
        Some(i) => line.skip(i + 1),
        None => line,
    }
}

fn display_part(line: &Vec<char>) -> (r: Vec<char>)
    ensures
        r@ == display_of_line(line@),
{
    let mut m: usize = 0;
    while m < line.len() && line[m] != ';'
        invariant
            m <= line@.len(),
            forall|k: int| 0 <= k < m ==> line@[k] != ';',
        decreases line@.len() - m,
    {
        m += 1;
    }
    if m < line.len() {
        proof {
            lemma_first_index_is(line@, ';', m as int);
        }
        tail_from(line, m + 1)
    } else {
        proof {
            lemma_first_index_props(line@, ';');
            if first_index_of(line@, ';') is Some {
                let ii = first_index_of(line@, ';')->0;
                assert(line@[ii] != ';');
            }
        }
        let r = tail_from(line, 0);
        assert(r@ =~= line@);
        r
    }
}

/// The entry one raw history line becomes, before masking.
pub open spec fn spec_entry_of_line(
    shell: Shell,
    line: Seq<char>,
    ps: Seq<DetectionView>,
) -> CommandView {
    CommandView {
        shell_type: shell,
        detections: matched_of(ps, display_of_line(line)),
        command: display_of_line(line),
        data: line,
        secrets: secrets_of(ps, display_of_line(line)),
    }
}

/// The entry one fish record becomes, before masking.
pub open spec fn spec_entry_of_fish(rec: FishHistoryView, ps: Seq<DetectionView>) -> CommandView {
    CommandView {
        shell_type: Shell::Fish,
        detections: matched_of(ps, rec.cmd),
        command: rec.cmd,
        data: fish_record_text(rec),
        secrets: secrets_of(ps, rec.cmd),
    }
}

/// The entries of a whole line-oriented history.
pub open spec fn spec_entries_of_lines(
    shell: Shell,
    lines: Seq<Seq<char>>,
    ps: Seq<DetectionView>,
) -> Seq<CommandView> {
    lines.map_values(|l: Seq<char>| spec_entry_of_line(shell, l, ps))
}

/// The entries of a whole fish history.
pub open spec fn spec_entries_of_fish(
    recs: Seq<FishHistoryView>,
    ps: Seq<DetectionView>,
) -> Seq<CommandView> {
    recs.map_values(|r: FishHistoryView| spec_entry_of_fish(r, ps))
}

/// What scanning a whole history file yields: parse, detect, then mask.
/// `None` is a fish history that does not decode.
pub open spec fn spec_find_from_content(
    content: Seq<char>,
    shell: Shell,
    ps: Seq<DetectionView>,
    m: MaskerView,
) -> Option<Seq<CommandView>> {
    if shell is Fish {
        match fish_parse(content) {
            Some(recs) => Some(spec_mask_entries(spec_entries_of_fish(recs, ps), m)),
            None => None,
        }
    } else {
        Some(spec_mask_entries(spec_entries_of_lines(shell, line_split(content), ps), m))
    }
}

/// The detection engine: the active rules and the masker they feed.
pub struct PatternsEngine {
    commands: Vec<Detection>,
    masker: Masker,
}

impl PatternsEngine {
    /// The rules this engine tests, in order.
    pub closed spec fn patterns(&self) -> Seq<DetectionView> {
        self.commands.deep_view()
    }

    /// The masker this engine redacts with.
    pub closed spec fn masker_view(&self) -> MaskerView {
        self.masker@
    }

    /// The engine's settings are usable.
    pub closed spec fn wf(&self) -> bool {
        self.masker.wf()
    }

    /// Loads the registry: built-in rules, then external ones, then every
    /// rule whose id is ignored is dropped.  No de-duplication by id is
    /// performed across the two sources.
    pub fn with_patterns(
        builtin: Vec<Detection>,
        external: Option<Vec<Detection>>,
        ignores: Option<Vec<String>>,
    ) -> (r: PatternsEngine)
        ensures
            r.wf(),
            r.patterns() == spec_registry(
                builtin.deep_view(),
                match external {
                    Some(e) => Some(e.deep_view()),
                    None => None,
                },
                match ignores {
                    Some(ig) => Some(ig.deep_view()),
                    None => None,
                },
            ),
            r.masker_view().percentage == 80,
            r.masker_view().min_chars == 3,
            r.masker_view().mask_chars == "*"@,
    {
        let ghost gb = builtin.deep_view();
        let ghost ge = match external {
            Some(ref e) => Some(e.deep_view()),
            None => None,
        };
        let mut merged = builtin;
        match external {
            Some(ext) => {
                let mut k: usize = 0;
                let ghost gext = ext.deep_view();
                while k < ext.len()
                    invariant
                        k <= ext@.len(),
                        gext == ext.deep_view(),
                        merged@.len() == gb.len() + k,
                        forall|q: int| 0 <= q < gb.len() ==> (#[trigger] merged@[q])@ == gb[q],
                        forall|q: int|
                            gb.len() <= q < gb.len() + k ==> (#[trigger] merged@[q])@ == gext[q
                                - gb.len()],
                    decreases ext@.len() - k,
                {
                    assert(ext.deep_view()[k as int] == (ext@[k as int])@);
                    merged.push(ext[k].clone());
                    k += 1;
                }
            },
            None => {
            },
        }
        proof {
            let tail = match ge {
                Some(e) => e,
                None => Seq::<DetectionView>::empty(),
            };
            assert(merged.deep_view() =~= gb + tail) by {
                assert(forall|q: int|
                    0 <= q < merged@.len() ==> #[trigger] merged.deep_view()[q] == (merged@[q])@);
            }
        }
        let ghost gmerged = merged.deep_view();
        let kept: Vec<Detection> = match ignores {
            Some(ig) => {
                let mut kept: Vec<Detection> = Vec::new();
                let ghost gig = ig.deep_view();
                let mut k: usize = 0;
                proof {
                    assert(gmerged.take(0) =~= Seq::<DetectionView>::empty());
                }
                while k < merged.len()
                    invariant
                        k <= merged@.len(),
                        gmerged == merged.deep_view(),
                        gig == ig.deep_view(),
                        kept.deep_view() == keep_unignored(gmerged.take(k as int), gig),
                    decreases merged@.len() - k,
                {
                    let ghost pre = gmerged.take(k as int);
                    let ghost post = gmerged.take(k + 1);
                    proof {
                        assert(post.drop_last() =~= pre);
                        assert(post.last() == gmerged[k as int]);
                        assert(gmerged[k as int] == (merged@[k as int])@);
                    }
                    let ghost kept0 = kept.deep_view();
                    if !contains_string(&ig, &merged[k].id) {
                        kept.push(merged[k].clone());
                        proof {
                            assert(kept.deep_view() =~= kept0.push(gmerged[k as int])) by {
                                assert(forall|q: int|
                                    0 <= q < kept@.len() ==> #[trigger] kept.deep_view()[q] == (
                                    kept@[q])@);
                            }
                        }
                    }
                    k += 1;
                }
                proof {
                    assert(gmerged.take(merged@.len() as int) =~= gmerged);
                }
                kept
            },
            None => merged,
        };
        PatternsEngine { commands: kept, masker: Masker::new() }
    }
}

impl PatternsEngine {
    /// Tests one command text against every rule, in registry order,
    /// collecting the secrets captured and the rules that matched.
    pub fn find_secrets(command: &String, patterns: &Vec<Detection>) -> (r: (Vec<String>, Vec<
        Detection,
    >))
        ensures
            r.0.deep_view() == secrets_of(patterns.deep_view(), command@),
            r.1.deep_view() == matched_of(patterns.deep_view(), command@),
    {
        let ghost gp = patterns.deep_view();
        let mut secrets: Vec<String> = Vec::new();
        let mut dets: Vec<Detection> = Vec::new();
        let mut i: usize = 0;
        proof {
            assert(gp.take(0) =~= Seq::<DetectionView>::empty());
        }
        while i < patterns.len()
            invariant
                gp == patterns.deep_view(),
                i <= patterns@.len(),
                secrets.deep_view() == secrets_of(gp.take(i as int), command@),
                dets.deep_view() == matched_of(gp.take(i as int), command@),
            decreases patterns@.len() - i,
        {
            let p = &patterns[i];
            proof {
                assert(gp.take(i + 1).drop_last() =~= gp.take(i as int));
                assert(gp.take(i + 1).last() == gp[i as int]);
                assert(gp[i as int] == (patterns@[i as int])@);
            }
            let cap = regex_capture(&p.test, command, p.secret_group);
            match cap {
                Some(opt) => {
                    assert(pattern_matches(gp[i as int], command@));
                    let ghost dets0 = dets.deep_view();
                    dets.push(p.clone());
                    proof {
                        assert(dets.deep_view() =~= dets0.push(gp[i as int])) by {
                            assert(forall|q: int|
                                0 <= q < dets@.len() ==> #[trigger] dets.deep_view()[q] == (
                                dets@[q])@);
                        }
                    }
                    match opt {
                        Some(s) => {
                            if !s.as_str().is_empty() {
                                assert(pattern_secret(gp[i as int], command@) == Some(s@));
                                let ghost secs0 = secrets.deep_view();
                                secrets.push(s);
                                proof {
                                    assert(secrets.deep_view() =~= secs0.push(
                                        pattern_secret(gp[i as int], command@)->0,
                                    )) by {
                                        assert(forall|q: int|
                                            0 <= q < secrets@.len()
                                                ==> #[trigger] secrets.deep_view()[q] == (
                                            secrets@[q])@);
                                    }
                                }
                            } else {
                                assert(pattern_secret(gp[i as int], command@) is None);
                            }
                        },
                        None => {
                            assert(pattern_secret(gp[i as int], command@) is None);
                        },
                    }
                },
                None => {
                    assert(!pattern_matches(gp[i as int], command@));
                    assert(pattern_secret(gp[i as int], command@) is None);
                },
            }
            i += 1;
        }
        proof {
            assert(gp.take(patterns@.len() as int) =~= gp);
        }
        (secrets, dets)
    }

    /// Scans one shell's whole history content: parses it into entries,
    /// tests every entry against every active rule, extracts the captured
    /// secrets, and masks them in the entries' texts.  Fails exactly when a
    /// fish history does not decode.
    pub fn find_history_commands_from_content(&self, content: &str, shell: Shell) -> (r: Result<
        Vec<Command>,
        ShellclearError,
    >)
        requires
            self.wf(),
        ensures
            match r {
                Ok(v) => spec_find_from_content(content@, shell, self.patterns(), self.masker_view())
                    == Some(v.deep_view()),
                Err(e) => e is Parse && shell is Fish && spec_find_from_content(
                    content@,
                    shell,
                    self.patterns(),
                    self.masker_view(),
                ) is None,
            },
    {
        let ghost gp = self.patterns();
        let is_fish = match shell {
            Shell::Fish => true,
            _ => false,
        };
        if is_fish {
            match parse_fish_history(content) {
                None => Err(ShellclearError::Parse),
                Some(records) => {
                    let ghost grecs = records.deep_view();
                    let mut entries: Vec<Command> = Vec::new();
                    let mut i: usize = 0;
                    while i < records.len()
                        invariant
                            self.wf(),
                            gp == self.patterns(),
                            grecs == records.deep_view(),
                            i <= records@.len(),
                            entries@.len() == i,
                            forall|k: int|
                                0 <= k < i ==> (#[trigger] entries@[k])@ == spec_entry_of_fish(
                                    grecs[k],
                                    gp,
                                ),
                        decreases records@.len() - i,
                    {
                        let rec = &records[i];
                        assert(rec@ == grecs[i as int]);
                        let disp = rec.cmd.clone();
                        let data = serialize_fish_record(rec);
                        let (secrets, dets) = PatternsEngine::find_secrets(&disp, &self.commands);
                        let e = Command {
                            shell_type: Shell::Fish,
                            detections: dets,
                            command: disp,
                            data,
                            secrets,
                        };
                        entries.push(e);
                        i += 1;
                    }
                    let mut entries = entries;
                    proof {
                        assert(entries.deep_view() =~= spec_entries_of_fish(grecs, gp)) by {
                            assert(forall|k: int|
                                0 <= k < entries@.len() ==> #[trigger] entries.deep_view()[k] == (
                                entries@[k])@);
                        }
                    }
                    self.masker.mask_sensitive_findings(&mut entries);
                    Ok(entries)
                },
            }
        } else {
            let chars = chars_of(content);
            let lines = split_lines(&chars);
            let ghost glines = views_of(lines@);
            assert(glines == line_split(content@));
            let mut entries: Vec<Command> = Vec::new();
            let mut i: usize = 0;
            while i < lines.len()
                invariant
                    self.wf(),
                    gp == self.patterns(),
                    glines == views_of(lines@),
                    i <= lines@.len(),
                    entries@.len() == i,
                    !(shell is Fish),
                    forall|k: int|
                        0 <= k < i ==> (#[trigger] entries@[k])@ == spec_entry_of_line(
                            shell,
                            glines[k],
                            gp,
                        ),
                decreases lines@.len() - i,
            {
                let line = &lines[i];
                assert(line@ == glines[i as int]);
                let disp_chars = display_part(line);
                let disp = string_of(&disp_chars);
                let data = string_of(line);
                let (secrets, dets) = PatternsEngine::find_secrets(&disp, &self.commands);
                let e = Command {
                    shell_type: shell,
                    detections: dets,
                    command: disp,
                    data,
                    secrets,
                };
                entries.push(e);
                i += 1;
            }
            let mut entries = entries;
            proof {
                assert(entries.deep_view() =~= spec_entries_of_lines(shell, glines, gp)) by {
                    assert(forall|k: int|
                        0 <= k < entries@.len() ==> #[trigger] entries.deep_view()[k] == (
                        entries@[k])@);
                }
            }
            self.masker.mask_sensitive_findings(&mut entries);
            Ok(entries)
        }
    }
}

/// The entries that carry at least one detection, in their original order.
pub open spec fn sensitive_of(es: Seq<CommandView>) -> Seq<CommandView>
    decreases es.len(),
{
    if es.len() == 0 {
        Seq::empty()
    } else {
        let rest = sensitive_of(es.drop_last());
        if es.last().detections.len() > 0 {
            rest.push(es.last())
        } else {
            rest
        }
    }
}

/// Filters the entries that carry at least one detection.
pub fn get_commands_with_secrets(commands: &Vec<Command>) -> (r: Vec<Command>)
    ensures
        r.deep_view() == sensitive_of(commands.deep_view()),
{
    let ghost gc = commands.deep_view();
    let mut out: Vec<Command> = Vec::new();
    let mut i: usize = 0;
    proof {
        assert(gc.take(0) =~= Seq::<CommandView>::empty());
    }
    while i < commands.len()
        invariant
            gc == commands.deep_view(),
            i <= commands@.len(),
            out.deep_view() == sensitive_of(gc.take(i as int)),
        decreases commands@.len() - i,
    {
        proof {
            assert(gc.take(i + 1).drop_last() =~= gc.take(i as int));
            assert(gc.take(i + 1).last() == gc[i as int]);
            assert(gc[i as int] == (commands@[i as int])@);
        }
        let ghost out0 = out.deep_view();
        if commands[i].detections.len() > 0 {
            out.push(commands[i].clone());
            proof {
                assert(out.deep_view() =~= out0.push(gc[i as int])) by {
                    assert(forall|q: int|
                        0 <= q < out@.len() ==> #[trigger] out.deep_view()[q] == (out@[q])@);
                }
            }
        }
        i += 1;
    }
    proof {
        assert(gc.take(commands@.len() as int) =~= gc);
    }
    out
}

/// No entry of `es` carries a rule with this id among its detections.
pub open spec fn no_detection_with_id(es: Seq<CommandView>, id: Seq<char>) -> bool {
    forall|k: int, d: int|
        0 <= k < es.len() && 0 <= d < es[k].detections.len() ==> (
        #[trigger] es[k].detections[d]).id != id
}

/// Masking never invents detections: each entry keeps its detection list
/// or has it cleared, so an exclusion that held before masking holds after.
proof fn lemma_mask_keeps_exclusion(es: Seq<CommandView>, m: MaskerView, id: Seq<char>)
    requires
        no_detection_with_id(es, id),
    ensures
        no_detection_with_id(spec_mask_entries(es, m), id),
{
    let masked = spec_mask_entries(es, m);
    assert forall|k: int, d: int|
        0 <= k < masked.len() && 0 <= d < masked[k].detections.len() implies (
    #[trigger] masked[k].detections[d]).id != id by {
        assert(masked[k] == crate::masker::spec_mask_entry(es[k], m));
        if crate::masker::spec_mask_entry(es[k], m).detections.len() > 0 {
            assert(masked[k].detections == es[k].detections);
            assert(es[k].detections[d].id != id);
        }
    }
}

/// Law: ignore-list exclusion over a whole scan.  Whatever a history file
/// holds, no entry the scan returns carries a rule whose id is on the
/// ignore list: the registry drops such rules before detection runs, and
/// masking never adds detections.
pub proof fn lemma_scan_never_reports_ignored(
    content: Seq<char>,
    shell: Shell,
    builtin: Seq<DetectionView>,
    external: Option<Seq<DetectionView>>,
    ignores: Seq<Seq<char>>,
    m: MaskerView,
    id: Seq<char>,
)
    requires
        ignores.contains(id),
    ensures
        match spec_find_from_content(
            content,
            shell,
            spec_registry(builtin, external, Some(ignores)),
            m,
        ) {
            Some(es) => no_detection_with_id(es, id),
            None => true,
        },
{
    let ps = spec_registry(builtin, external, Some(ignores));
    if shell is Fish {
        match fish_parse(content) {
            Some(recs) => {
                let entries = spec_entries_of_fish(recs, ps);
                assert forall|k: int, d: int|
                    0 <= k < entries.len() && 0 <= d < entries[k].detections.len() implies (
                #[trigger] entries[k].detections[d]).id != id by {
                    assert(entries[k] == spec_entry_of_fish(recs[k], ps));
                    lemma_ignored_id_never_matched(builtin, external, ignores, recs[k].cmd, id);
                }
                lemma_mask_keeps_exclusion(entries, m, id);
            },
            None => {
            },
        }
    } else {
        let lines = line_split(content);
        let entries = spec_entries_of_lines(shell, lines, ps);
        assert forall|k: int, d: int|
            0 <= k < entries.len() && 0 <= d < entries[k].detections.len() implies (
        #[trigger] entries[k].detections[d]).id != id by {
            assert(entries[k] == spec_entry_of_line(shell, lines[k], ps));
            lemma_ignored_id_never_matched(
                builtin,
                external,
                ignores,
                display_of_line(lines[k]),
                id,
            );
        }
        lemma_mask_keeps_exclusion(entries, m, id);
    }
}

/// Law: an entry whose display text matches no active rule gets empty
/// detections and empty secrets, and the masker leaves it untouched.
pub proof fn lemma_unmatched_entry_untouched(
    shell: Shell,
    line: Seq<char>,
    ps: Seq<DetectionView>,
    m: MaskerView,
)
    requires
        forall|k: int|
            0 <= k < ps.len() ==> !pattern_matches(#[trigger] ps[k], display_of_line(line)),
    ensures
        spec_entry_of_line(shell, line, ps).detections.len() == 0,
        spec_entry_of_line(shell, line, ps).secrets.len() == 0,
        crate::masker::spec_mask_entry(spec_entry_of_line(shell, line, ps), m)
            == spec_entry_of_line(shell, line, ps),
{
    lemma_no_match_no_secrets(ps, display_of_line(line));
}

/// Law: the entry model invariant holds of everything a scan returns —
/// an entry whose matched rules are empty carries no secrets either.
pub proof fn lemma_scan_entries_satisfy_inv(
    content: Seq<char>,
    shell: Shell,
    ps: Seq<DetectionView>,
    m: MaskerView,
)
    ensures
        match spec_find_from_content(content, shell, ps, m) {
            Some(es) => forall|k: int| 0 <= k < es.len() ==> entry_inv(#[trigger] es[k]),
            None => true,
        },
{
    if shell is Fish {
        match fish_parse(content) {
            Some(recs) => {
                let entries = spec_entries_of_fish(recs, ps);
                let masked = spec_mask_entries(entries, m);
                assert forall|k: int| 0 <= k < masked.len() implies entry_inv(
                    #[trigger] masked[k],
                ) by {
                    assert(entries[k] == spec_entry_of_fish(recs[k], ps));
                    if matched_of(ps, recs[k].cmd).len() == 0 {
                        lemma_no_matches_means_no_secrets(ps, recs[k].cmd);
                    }
                    crate::masker::lemma_mask_preserves_entry_inv(entries[k], m);
                    assert(masked[k] == crate::masker::spec_mask_entry(entries[k], m));
                }
            },
            None => {
            },
        }
    } else {
        let lines = line_split(content);
        let entries = spec_entries_of_lines(shell, lines, ps);
        let masked = spec_mask_entries(entries, m);
        assert forall|k: int| 0 <= k < masked.len() implies entry_inv(#[trigger] masked[k]) by {
            assert(entries[k] == spec_entry_of_line(shell, lines[k], ps));
            if matched_of(ps, display_of_line(lines[k])).len() == 0 {
                lemma_no_matches_means_no_secrets(ps, display_of_line(lines[k]));
            }
            crate::masker::lemma_mask_preserves_entry_inv(entries[k], m);
            assert(masked[k] == crate::masker::spec_mask_entry(entries[k], m));
        }
    }
}

/// Law: an entry whose display text matches no active rule survives a
/// whole scan untouched — empty detections and secrets, and both of its
/// texts exactly as parsed.
pub proof fn lemma_unmatched_line_survives_scan(
    content: Seq<char>,
    shell: Shell,
    ps: Seq<DetectionView>,
    m: MaskerView,
    k: int,
)
    requires
        !(shell is Fish),
        0 <= k < line_split(content).len(),
        forall|j: int|
            0 <= j < ps.len() ==> !pattern_matches(
                #[trigger] ps[j],
                display_of_line(line_split(content)[k]),
            ),
    ensures
        spec_find_from_content(content, shell, ps, m) matches Some(es) && es.len() == line_split(
            content,
        ).len() && es[k].detections.len() == 0 && es[k].secrets.len() == 0 && es[k].command
            == display_of_line(line_split(content)[k]) && es[k].data == line_split(content)[k],
{
    let lines = line_split(content);
    let entries = spec_entries_of_lines(shell, lines, ps);
    assert(entries[k] == spec_entry_of_line(shell, lines[k], ps));
    lemma_no_match_no_secrets(ps, display_of_line(lines[k]));
    let masked = spec_mask_entries(entries, m);
    assert(masked[k] == crate::masker::spec_mask_entry(entries[k], m));
    assert(masked[k] == entries[k]);
}

/// Whether a string list holds this string.
pub(crate) fn contains_string(v: &Vec<String>, s: &String) -> (r: bool)
    ensures
        r == v.deep_view().contains(s@),
{
    let mut i: usize = 0;
    while i < v.len()
        invariant
            i <= v@.len(),
            forall|k: int| 0 <= k < i ==> (#[trigger] v@[k])@ != s@,
        decreases v@.len() - i,
    {
        if v[i].eq(s) {
            assert(v.deep_view()[i as int] == (v@[i as int])@);
            return true;
        }
        i += 1;
    }
    proof {
        if v.deep_view().contains(s@) {
            let w = choose|w: int| 0 <= w < v.deep_view().len() && v.deep_view()[w] == s@;
            assert(v.deep_view()[w] == (v@[w])@);
        }
    }
    false
}

} // verus!
