//! Dislike rules: one rule per line, `name` or `name@singer`.
use vstd::prelude::*;
use crate::data::list::music::lemma_filter_take_step;
use crate::text::{
    dedup, join_lines, lines, string_views, split_lines, join_with_newlines, contains_string,
    push_char,
};

verus! {

/// A user's dislike rules, one per line.
pub struct DislikeData {
    pub rules: String,
}

/// A change to the dislike rules that a client sends.
pub enum DislikeSyncAction {
    /// All rules replaced by the client's text.
    Overwrite(String),
    /// Rules added for songs, given by name and singer.
    Add(Vec<(String, String)>),
    /// All rules removed.
    Clear,
}

/// A rule survives a merge when both sides have it, or when the last synced
/// state did not have it (so one side added it).
pub open spec fn keep_rule(
    rule: Seq<char>,
    current: Seq<Seq<char>>,
    client: Seq<Seq<char>>,
    snapshot: Seq<Seq<char>>,
) -> bool {
    (current.contains(rule) && client.contains(rule)) || !snapshot.contains(rule)
}

/// The rules after a merge: those of both sides that survive, each once,
/// the server's first.
pub open spec fn merged_rules(current: Seq<char>, client: Seq<char>, snapshot: Seq<char>) -> Seq<Seq<char>> {
    dedup(
        (lines(current) + lines(client)).filter(
            |r: Seq<char>| keep_rule(r, lines(current), lines(client), lines(snapshot)),
        ),
    )
}

/// The rule for a song: its name, and `@` and the singer if there is one.
pub open spec fn rule_of(name: Seq<char>, singer: Seq<char>) -> Seq<char> {
    if singer.len() == 0 {
        name
    } else {
        name + seq!['@'] + singer
    }
}

/// The rules for songs, one per song.
pub open spec fn rules_of(songs: Seq<(String, String)>) -> Seq<Seq<char>> {
    songs.map_values(|p: (String, String)| rule_of(p.0@, p.1@))
}

/// The rule for a song given as name and singer.
pub fn format_to_rule(name_and_singer: (String, String)) -> (r: String)
    ensures
        r@ == rule_of(name_and_singer.0@, name_and_singer.1@),
{
    let (name, singer) = name_and_singer;
    if singer.as_str().is_empty() {
        name
    } else {
        let mut rule = name;
        push_char(&mut rule, '@');
        rule.append(singer.as_str());
        rule
    }
}

/// Adds the `k`-th of all rules to the merged ones, where it survives and
/// is not there yet.
fn absorb_rule(
    out: &mut Vec<String>,
    rule: &String,
    current: &Vec<String>,
    client: &Vec<String>,
    snapshot: &Vec<String>,
    Ghost(all): Ghost<Seq<Seq<char>>>,
    Ghost(k): Ghost<nat>,
)
    requires
        all == string_views(current@) + string_views(client@),
        k < all.len(),
        rule@ == all[k as int],
        string_views(old(out)@) == dedup(
            all.take(k as int).filter(
                |r: Seq<char>|
                    keep_rule(
                        r,
                        string_views(current@),
                        string_views(client@),
                        string_views(snapshot@),
                    ),
            ),
        ),
    ensures
        string_views(final(out)@) == dedup(
            all.take(k as int + 1).filter(
                |r: Seq<char>|
                    keep_rule(
                        r,
                        string_views(current@),
                        string_views(client@),
                        string_views(snapshot@),
                    ),
            ),
        ),
{
    let ghost keep = |r: Seq<char>|
        keep_rule(r, string_views(current@), string_views(client@), string_views(snapshot@));
    proof {
        lemma_filter_take_step(all, k as int, keep);
    }
    let in_current = contains_string(current, rule);
    let in_client = contains_string(client, rule);
    let in_snapshot = contains_string(snapshot, rule);
    if (in_current && in_client) || !in_snapshot {
        let ghost prefix = all.take(k as int).filter(keep);
        assert(all.take(k as int + 1).filter(keep) == prefix.push(rule@));
        assert(prefix.push(rule@).drop_last() =~= prefix);
        if !contains_string(out, rule) {
            let ghost before = out@;
            out.push(rule.clone());
            assert(string_views(out@) =~= string_views(before).push(rule@));
        }
    }
}

impl DislikeData {
    /// Whether there are no rules at all.
    pub fn is_empty(&self) -> (r: bool)
        ensures
            r == (self.rules@.len() == 0),
    {
        self.rules.as_str().is_empty()
    }

    /// The three-way merge of the rules: a rule that one side removed since
    /// the snapshot goes, a rule that one side added stays.
    pub fn merge(&mut self, client: &Self, snapshot: &Self)
        ensures
            final(self).rules@ == join_lines(
                merged_rules(old(self).rules@, client.rules@, snapshot.rules@),
            ),
    {
        let current = split_lines(self.rules.as_str());
        let client_lines = split_lines(client.rules.as_str());
        let snapshot_lines = split_lines(snapshot.rules.as_str());
        let ghost cur = string_views(current@);
        let ghost cli = string_views(client_lines@);
        let ghost snap = string_views(snapshot_lines@);
        let ghost keep = |r: Seq<char>| keep_rule(r, cur, cli, snap);
        let ghost all = cur + cli;
        let mut out: Vec<String> = Vec::new();
        let mut i: usize = 0;
        while i < current.len()
            invariant
                i <= cur.len(),
                cur == string_views(current@),
                cli == string_views(client_lines@),
                snap == string_views(snapshot_lines@),
                all == cur + cli,
                keep == (|r: Seq<char>| keep_rule(r, cur, cli, snap)),
                string_views(out@) == dedup(all.take(i as int).filter(keep)),
            decreases cur.len() - i,
        {
            assert(current@[i as int]@ == all[i as int]);
            absorb_rule(&mut out, &current[i], &current, &client_lines, &snapshot_lines, Ghost(all), Ghost(i as nat));
            i = i + 1;
        }
        let mut j: usize = 0;
        while j < client_lines.len()
            invariant
                j <= cli.len(),
                cur == string_views(current@),
                cli == string_views(client_lines@),
                snap == string_views(snapshot_lines@),
                all == cur + cli,
                keep == (|r: Seq<char>| keep_rule(r, cur, cli, snap)),
                string_views(out@) == dedup(all.take(cur.len() + j).filter(keep)),
            decreases cli.len() - j,
        {
            assert(client_lines@[j as int]@ == all[cur.len() + j]);
            absorb_rule(
                &mut out,
                &client_lines[j],
                &current,
                &client_lines,
                &snapshot_lines,
                Ghost(all),
                Ghost((cur.len() + j) as nat),
            );
            j = j + 1;
        }
        assert(all.take((cur.len() + cli.len()) as int) =~= all);
        self.rules = join_with_newlines(&out);
    }

    /// Replaces all rules with the client's text.
    pub fn on_overwrite(&mut self, data: String)
        ensures
            final(self).rules@ == data@,
    {
        self.rules = data;
    }

    /// Appends the rules for the given songs, joined with `\n`, right after
    /// the existing text (no line break is put between them).
    pub fn on_add(&mut self, data: Vec<(String, String)>)
        ensures
            final(self).rules@ == old(self).rules@ + join_lines(rules_of(data@)),
    {
        let mut new_rules: Vec<String> = Vec::new();
        let mut i: usize = 0;
        while i < data.len()
            invariant
                i <= data@.len(),
                string_views(new_rules@) == rules_of(data@).take(i as int),
            decreases data@.len() - i,
        {
            let pair = (data[i].0.clone(), data[i].1.clone());
            let rule = format_to_rule(pair);
            assert(rules_of(data@)[i as int] == rule@);
            let ghost before = new_rules@;
            new_rules.push(rule);
            assert(string_views(new_rules@) =~= string_views(before).push(rule@));
            assert(rules_of(data@).take(i + 1) =~= rules_of(data@).take(i as int).push(rule@));
            assert(string_views(new_rules@) =~= rules_of(data@).take(i + 1));
            i = i + 1;
        }
        assert(rules_of(data@).take(data@.len() as int) =~= rules_of(data@));
        let joined = join_with_newlines(&new_rules);
        self.rules.append(joined.as_str());
    }

    /// Removes all rules.
    pub fn on_clear(&mut self)
        ensures
            final(self).rules@.len() == 0,
    {
        self.rules = String::new();
    }

    /// Applies a change that a client sent.
    pub fn on(&mut self, action: DislikeSyncAction)
        ensures
            match action {
                DislikeSyncAction::Overwrite(data) => final(self).rules@ == data@,
                DislikeSyncAction::Add(songs) => final(self).rules@ == old(self).rules@
                    + join_lines(rules_of(songs@)),
                DislikeSyncAction::Clear => final(self).rules@.len() == 0,
            },
    {
        match action {
            DislikeSyncAction::Overwrite(data) => self.on_overwrite(data),
            DislikeSyncAction::Add(songs) => self.on_add(songs),
            DislikeSyncAction::Clear => self.on_clear(),
        }
    }
}

proof fn lemma_dedup_contains<A>(s: Seq<A>, x: A)
    ensures
        dedup(s).contains(x) == s.contains(x),
        dedup(s).no_duplicates(),
    decreases s.len(),
{
    if s.len() > 0 {
        lemma_dedup_contains(s.drop_last(), x);
        lemma_dedup_contains(s.drop_last(), s.last());
        let rest = dedup(s.drop_last());
        if s.contains(x) && !s.drop_last().contains(x) {
            let k = choose|k: int| 0 <= k < s.len() && s[k] == x;
            if k < s.len() - 1 {
                assert(s.drop_last()[k] == x);
            }
        }
        if s.drop_last().contains(x) {
            let k = choose|k: int| 0 <= k < s.drop_last().len() && s.drop_last()[k] == x;
            assert(s[k] == x);
        }
        if !rest.contains(s.last()) {
            let r = rest.push(s.last());
            assert(r[r.len() - 1] == s.last());
            assert forall|i: int, j: int| 0 <= i < r.len() && 0 <= j < r.len() && i != j implies r[i] != r[j] by {
                if i < r.len() - 1 && j < r.len() - 1 {
                    assert(r[i] == rest[i] && r[j] == rest[j]);
                } else if i == r.len() - 1 {
                    assert(r[j] == rest[j]);
                } else {
                    assert(r[i] == rest[i]);
                }
            }
            if x == s.last() {
                assert(r.contains(x));
            } else if rest.contains(x) {
                let k = choose|k: int| 0 <= k < rest.len() && rest[k] == x;
                assert(r[k] == x);
            }
            if r.contains(x) && x != s.last() {
                let k = choose|k: int| 0 <= k < r.len() && r[k] == x;
                assert(rest[k] == x);
            }
        }
    }
}

/// Law: after a merge, a rule is there exactly when one of the sides has
/// it and it survives (both sides kept it, or it is new since the
/// snapshot), and no rule is there twice.
pub proof fn lemma_merge_rules(current: Seq<char>, client: Seq<char>, snapshot: Seq<char>, rule: Seq<char>)
    ensures
        merged_rules(current, client, snapshot).contains(rule) == ((lines(current).contains(rule)
            || lines(client).contains(rule)) && keep_rule(
            rule,
            lines(current),
            lines(client),
            lines(snapshot),
        )),
        merged_rules(current, client, snapshot).no_duplicates(),
{
    let keep = |r: Seq<char>| keep_rule(r, lines(current), lines(client), lines(snapshot));
    let all = lines(current) + lines(client);
    lemma_dedup_contains(all.filter(keep), rule);
    broadcast use vstd::seq_lib::group_filter_ensures;
    if all.filter(keep).contains(rule) {
        all.lemma_filter_contains_rev(keep, rule);
        let k = choose|k: int| 0 <= k < all.filter(keep).len() && all.filter(keep)[k] == rule;
        assert(keep(all.filter(keep)[k]));
        let j = choose|j: int| 0 <= j < all.len() && all[j] == rule;
        if j < lines(current).len() {
            assert(lines(current)[j] == rule);
        } else {
            assert(lines(client)[j - lines(current).len()] == rule);
        }
    }
    if (lines(current).contains(rule) || lines(client).contains(rule)) && keep(rule) {
        if lines(current).contains(rule) {
            let j = choose|j: int| 0 <= j < lines(current).len() && lines(current)[j] == rule;
            assert(all[j] == rule);
        } else {
            let j = choose|j: int| 0 <= j < lines(client).len() && lines(client)[j] == rule;
            assert(all[j + lines(current).len()] == rule);
        }
    }
}

} // verus!
