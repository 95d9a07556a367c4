//! The history rewriter: applies the keep/remove policy per entry and
//! serializes the surviving entries of one shell back to file content.
//! Writing the content to disk is the caller's business; an empty result
//! means there is nothing to write.

use vstd::prelude::*;

use crate::data::{Command, CommandView, DetectionView};
use crate::engine::{
    pattern_matches, spec_entries_of_fish, spec_entries_of_lines, spec_entry_of_fish,
    spec_entry_of_line, spec_find_from_content, display_of_line, lemma_no_match_no_secrets,
};
use crate::masker::{MaskerView, spec_mask_entries};
use crate::shell::{
    Shell, FishHistoryView, fish_lines, fish_parse, fish_record_ok, fish_record_text,
    fish_serialize, lemma_fish_round_trip,
};
use crate::textutil::{join_lines, line_split, lemma_join_split};

verus! {

/// Whether the rewrite policy keeps an entry: mask-in-place keeps all,
/// remove keeps only the ones without detections.
pub open spec fn keep_entry(e: CommandView, remove: bool) -> bool {
    !remove || e.detections.len() == 0
}

/// The rewritten content for one shell: the serialized form of every kept
/// entry of that shell, each terminated by a newline, in original order.
pub open spec fn spec_render(es: Seq<CommandView>, shell: Shell, remove: bool) -> Seq<char>
    decreases es.len(),
{
    if es.len() == 0 {
        Seq::empty()
    } else {
        (if es[0].shell_type == shell && keep_entry(es[0], remove) {
            es[0].data + seq!['\n']
        } else {
            Seq::empty()
        }) + spec_render(es.drop_first(), shell, remove)
    }
}

/// Rewrites histories from annotated entries.
pub struct Clearer {}

impl Clearer {
    /// Serializes the surviving entries of `shell` back to file content.
    /// With `remove` set, entries with detections are dropped; without it,
    /// every entry is kept with its (possibly masked) serialized text.
    pub fn render_history(commands: &Vec<Command>, shell: &Shell, remove: bool) -> (r: String)
        ensures
            r@ == spec_render(commands.deep_view(), *shell, remove),
    {
        let ghost gc = commands.deep_view();
        let mut out = String::new();
        let mut i: usize = 0;
        proof {
            assert(gc.skip(0) =~= gc);
            assert(Seq::<char>::empty() + spec_render(gc, *shell, remove) =~= spec_render(
                gc,
                *shell,
                remove,
            ));
        }
        while i < commands.len()
            invariant
                gc == commands.deep_view(),
                i <= commands@.len(),
                out@ + spec_render(gc.skip(i as int), *shell, remove) == spec_render(
                    gc,
                    *shell,
                    remove,
                ),
            decreases commands@.len() - i,
        {
            let ghost rest = gc.skip(i as int);
            proof {
                assert(rest[0] == gc[i as int]);
                assert(gc[i as int] == (commands@[i as int])@);
                assert(rest.drop_first() =~= gc.skip(i + 1));
            }
            let ghost out0 = out@;
            let c = &commands[i];
            let keep = if remove {
                c.detections.len() == 0
            } else {
                true
            };
            if keep && c.shell_type == *shell {
                out.append(c.data.as_str());
                out.append("\n");
                proof {
                    reveal_strlit("\n");
                    assert(out@ =~= out0 + (gc[i as int].data + seq!['\n']));
                }
            }
            proof {
                let head = if rest[0].shell_type == *shell && keep_entry(rest[0], remove) {
                    rest[0].data + seq!['\n']
                } else {
                    Seq::<char>::empty()
                };
                assert(out@ =~= out0 + head);
                assert((out0 + head) + spec_render(gc.skip(i + 1), *shell, remove) =~= out0 + (head
                    + spec_render(gc.skip(i + 1), *shell, remove)));
            }
            i += 1;
        }
        proof {
            assert(gc.skip(commands@.len() as int) =~= Seq::<CommandView>::empty());
            assert(out@ + Seq::<char>::empty() =~= out@);
        }
        out
    }
}

/// The serialized texts of the entries, in order.
pub open spec fn datas_of(es: Seq<CommandView>) -> Seq<Seq<char>> {
    es.map_values(|e: CommandView| e.data)
}

/// When every entry belongs to the shell and survives the policy, the
/// rendered content is exactly the entries' texts, newline-joined.
proof fn lemma_render_keeps_all(es: Seq<CommandView>, shell: Shell, remove: bool)
    requires
        forall|k: int|
            0 <= k < es.len() ==> ((#[trigger] es[k]).shell_type == shell && keep_entry(
                es[k],
                remove,
            )),
    ensures
        spec_render(es, shell, remove) == join_lines(datas_of(es)),
    decreases es.len(),
{
    if es.len() > 0 {
        assert forall|k: int| 0 <= k < es.drop_first().len() implies ((
        #[trigger] es.drop_first()[k]).shell_type == shell && keep_entry(
            es.drop_first()[k],
            remove,
        )) by {
            assert(es.drop_first()[k] == es[k + 1]);
        }
        lemma_render_keeps_all(es.drop_first(), shell, remove);
        assert(datas_of(es).drop_first() =~= datas_of(es.drop_first()));
        assert(datas_of(es)[0] == es[0].data);
    }
}

/// Law: round trip for line-oriented histories.  When no active rule
/// matches any line, scanning the content and rewriting it under the
/// mask-in-place policy reproduces the file byte for byte — for files that
/// end in a newline and carry no CRLF line endings, the two shapes the
/// line reader does not preserve.
pub proof fn lemma_round_trip_lines(
    content: Seq<char>,
    shell: Shell,
    ps: Seq<DetectionView>,
    m: MaskerView,
)
    requires
        !(shell is Fish),
        content.len() > 0 ==> content.last() == '\n',
        forall|i: int|
            0 <= i < content.len() - 1 ==> !(#[trigger] content[i] == '\r' && content[i + 1]
                == '\n'),
        forall|k: int, j: int|
            0 <= k < ps.len() && 0 <= j < line_split(content).len() ==> !pattern_matches(
                #[trigger] ps[k],
                display_of_line(#[trigger] line_split(content)[j]),
            ),
    ensures
        spec_find_from_content(content, shell, ps, m) matches Some(es) && spec_render(
            es,
            shell,
            false,
        ) == content,
{
    let lines = line_split(content);
    let entries = spec_entries_of_lines(shell, lines, ps);
    let masked = spec_mask_entries(entries, m);
    assert forall|k: int| 0 <= k < masked.len() implies #[trigger] masked[k] == entries[k] by {
        assert(entries[k] == spec_entry_of_line(shell, lines[k], ps));
        lemma_no_match_no_secrets(ps, display_of_line(lines[k]));
        assert(entries[k].detections.len() == 0);
    }
    assert(masked =~= entries);
    assert forall|k: int|
        0 <= k < entries.len() implies ((#[trigger] entries[k]).shell_type == shell && keep_entry(
        entries[k],
        false,
    )) by {
        assert(entries[k] == spec_entry_of_line(shell, lines[k], ps));
    }
    lemma_render_keeps_all(entries, shell, false);
    assert(datas_of(entries) =~= lines);
    lemma_join_split(content);
}

/// Rendering the unmasked fish entries reproduces the serialized records.
proof fn lemma_render_fish_entries(recs: Seq<FishHistoryView>, ps: Seq<DetectionView>)
    requires
        forall|j: int, k: int|
            0 <= j < recs.len() && 0 <= k < ps.len() ==> !pattern_matches(
                #[trigger] ps[k],
                (#[trigger] recs[j]).cmd,
            ),
    ensures
        spec_render(spec_entries_of_fish(recs, ps), Shell::Fish, false) == fish_serialize(recs),
    decreases recs.len(),
{
    let es = spec_entries_of_fish(recs, ps);
    if recs.len() == 0 {
        assert(fish_lines(recs) =~= Seq::<Seq<char>>::empty());
    } else {
        let rest = recs.drop_first();
        assert forall|j: int, k: int|
            0 <= j < rest.len() && 0 <= k < ps.len() implies !pattern_matches(
            #[trigger] ps[k],
            (#[trigger] rest[j]).cmd,
        ) by {
            assert(rest[j] == recs[j + 1]);
        }
        lemma_render_fish_entries(rest, ps);
        assert(es[0] == spec_entry_of_fish(recs[0], ps));
        assert(es.drop_first() =~= spec_entries_of_fish(rest, ps));
        let l1 = crate::shell::cmd_prefix() + recs[0].cmd;
        let l2 = crate::shell::when_prefix() + recs[0].when;
        let fl = fish_lines(recs);
        assert(fl == seq![l1, l2] + fish_lines(rest));
        assert(fl[0] == l1);
        assert(fl.drop_first() =~= seq![l2] + fish_lines(rest));
        assert(fl.drop_first()[0] == l2);
        assert(fl.drop_first().drop_first() =~= fish_lines(rest));
        assert(join_lines(fl.drop_first()) == l2 + seq!['\n'] + join_lines(
            fl.drop_first().drop_first(),
        ));
        assert(join_lines(fl) == l1 + seq!['\n'] + join_lines(fl.drop_first()));
        assert(join_lines(fl) == l1 + seq!['\n'] + (l2 + seq!['\n'] + join_lines(
            fish_lines(rest),
        )));
        assert(es[0].data == fish_record_text(recs[0]));
        assert((fish_record_text(recs[0]) + seq!['\n']) + fish_serialize(rest) =~= l1 + seq!['\n']
            + (l2 + seq!['\n'] + join_lines(fish_lines(rest))));
    }
}

/// Law: round trip for fish histories.  When no active rule matches any
/// record's command, scanning the serialized form of well-formed records
/// and rewriting it under the mask-in-place policy reproduces that
/// serialization byte for byte.
pub proof fn lemma_round_trip_fish(
    recs: Seq<FishHistoryView>,
    ps: Seq<DetectionView>,
    m: MaskerView,
)
    requires
        forall|j: int| 0 <= j < recs.len() ==> fish_record_ok(#[trigger] recs[j]),
        forall|j: int, k: int|
            0 <= j < recs.len() && 0 <= k < ps.len() ==> !pattern_matches(
                #[trigger] ps[k],
                (#[trigger] recs[j]).cmd,
            ),
    ensures
        spec_find_from_content(fish_serialize(recs), Shell::Fish, ps, m) matches Some(es)
            && spec_render(es, Shell::Fish, false) == fish_serialize(recs),
{
    lemma_fish_round_trip(recs);
    let entries = spec_entries_of_fish(recs, ps);
    let masked = spec_mask_entries(entries, m);
    assert forall|k: int| 0 <= k < masked.len() implies #[trigger] masked[k] == entries[k] by {
        assert(entries[k] == spec_entry_of_fish(recs[k], ps));
        lemma_no_match_no_secrets(ps, recs[k].cmd);
        assert(entries[k].detections.len() == 0);
    }
    assert(masked =~= entries);
    lemma_render_fish_entries(recs, ps);
}

} // verus!
