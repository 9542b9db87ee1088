//! Properties of the printed lines, proved over the specifications that the
//! executable functions meet exactly.
use vstd::prelude::*;
use crate::entries::{entries_of, first_occurrences, matching, output_lines, split_on};
use crate::pattern::{regex_compiles, regex_matches};
use crate::run::{run_outcome, values_for, Config};
use crate::variables::{lookup, read_all, read_named, text_of, EnvVar};
use crate::entries::views;

verus! {

broadcast use vstd::seq_lib::group_seq_properties;

/// The number of entries that `pattern` matches.
pub open spec fn count_matching(entries: Seq<Seq<char>>, pattern: Seq<char>) -> nat
    decreases entries.len(),
{
    if entries.len() == 0 {
        0
    } else {
        count_matching(entries.drop_last(), pattern) + if regex_matches(
            pattern,
            entries.last(),
        ) {
            1nat
        } else {
            0nat
        }
    }
}

/// `u` is `s` at the positions `idx`, increasing, each the first position in
/// `s` of its item.
pub open spec fn picks_first_occurrences(
    u: Seq<Seq<char>>,
    s: Seq<Seq<char>>,
    idx: Seq<int>,
) -> bool {
    &&& idx.len() == u.len()
    &&& forall|k: int|
        0 <= k < idx.len() ==> {
            &&& 0 <= #[trigger] idx[k] < s.len()
            &&& s[idx[k]] == u[k]
            &&& !s.take(idx[k]).contains(u[k])
        }
    &&& forall|k: int, l: int| 0 <= k < l < idx.len() ==> #[trigger] idx[k] < #[trigger] idx[l]
}

proof fn lemma_count_is_matching_len(entries: Seq<Seq<char>>, pattern: Seq<char>)
    ensures
        matching(entries, pattern).len() == count_matching(entries, pattern),
    decreases entries.len(),
{
    if entries.len() > 0 {
        lemma_count_is_matching_len(entries.drop_last(), pattern);
    }
}

/// Without deduplication, one line is printed for each entry of the
/// requested values that the pattern matches.
pub proof fn law_line_count(values: Seq<Seq<char>>, sep: char, pattern: Seq<char>)
    ensures
        output_lines(values, sep, pattern, false).len() == count_matching(
            entries_of(values, sep),
            pattern,
        ),
{
    lemma_count_is_matching_len(entries_of(values, sep), pattern);
}

/// `first_occurrences(s)` holds the items of `s`, each once, at their first
/// positions in `s`; the positions are returned.
pub proof fn lemma_first_occurrences(s: Seq<Seq<char>>) -> (idx: Seq<int>)
    ensures
        first_occurrences(s).no_duplicates(),
        forall|x: Seq<char>| #[trigger] first_occurrences(s).contains(x) <==> s.contains(x),
        picks_first_occurrences(first_occurrences(s), s, idx),
    decreases s.len(),
{
    if s.len() == 0 {
        Seq::empty()
    } else {
        let prev = s.drop_last();
        let x = s.last();
        let prev_idx = lemma_first_occurrences(prev);
        let prev_u = first_occurrences(prev);
        assert(s == prev.push(x));
        assert forall|y: Seq<char>| s.contains(y) <==> prev.contains(y) || y == x by {}
        assert forall|k: int| 0 <= k < prev_idx.len() implies s.take(#[trigger] prev_idx[k])
            == prev.take(prev_idx[k]) by {
            assert(s.take(prev_idx[k]) == prev.take(prev_idx[k]));
        }
        if prev.contains(x) {
            prev_idx
        } else {
            let idx = prev_idx.push(prev.len() as int);
            let u = prev_u.push(x);
            assert(s.take(prev.len() as int) == prev);
            assert(!prev_u.contains(x));
            assert forall|k: int| 0 <= k < idx.len() implies {
                &&& 0 <= #[trigger] idx[k] < s.len()
                &&& s[idx[k]] == u[k]
                &&& !s.take(idx[k]).contains(u[k])
            } by {
                if k < prev_idx.len() {
                    assert(idx[k] == prev_idx[k]);
                }
            }
            assert forall|i: int, j: int| 0 <= i < j < u.len() implies u[i] != u[j] by {
                if j == u.len() - 1 {
                    assert(prev_u.contains(u[i]));
                } else {
                    assert(prev_u[i] != prev_u[j]);
                }
            }
            idx
        }
    }
}

/// With deduplication the lines hold no repeat, and they are exactly the
/// lines printed without it, each kept at its first occurrence, in order.
pub proof fn law_unique_lines(values: Seq<Seq<char>>, sep: char, pattern: Seq<char>)
    ensures
        output_lines(values, sep, pattern, true).no_duplicates(),
        forall|x: Seq<char>|
            #[trigger] output_lines(values, sep, pattern, true).contains(x) <==> output_lines(
                values,
                sep,
                pattern,
                false,
            ).contains(x),
        exists|idx: Seq<int>|
            picks_first_occurrences(
                output_lines(values, sep, pattern, true),
                output_lines(values, sep, pattern, false),
                idx,
            ),
{
    let idx = lemma_first_occurrences(output_lines(values, sep, pattern, false));
    assert(picks_first_occurrences(
        output_lines(values, sep, pattern, true),
        output_lines(values, sep, pattern, false),
        idx,
    ));
}

/// The text of each variable of an environment: its name and its value.
pub open spec fn env_text(env: Seq<EnvVar>) -> Seq<(Option<Seq<char>>, Option<Seq<char>>)> {
    env.map_values(|v: EnvVar| (text_of(v.name), text_of(v.value)))
}

/// Two configurations that say the same thing.
pub open spec fn same_settings(a: Config, b: Config) -> bool {
    &&& views(a.variable_names@) == views(b.variable_names@)
    &&& a.pattern@ == b.pattern@
    &&& a.unique == b.unique
    &&& a.all_variables == b.all_variables
    &&& a.separator == b.separator
    &&& a.fail_on_unset == b.fail_on_unset
}

proof fn lemma_lookup_text(a: Seq<EnvVar>, b: Seq<EnvVar>, name: Seq<char>)
    requires
        env_text(a) == env_text(b),
    ensures
        lookup(a, name) == lookup(b, name),
    decreases a.len(),
{
    assert(a.len() == env_text(a).len() && b.len() == env_text(b).len());
    if a.len() > 0 {
        assert(env_text(a)[0] == env_text(b)[0]);
        assert(env_text(a.drop_first()) == env_text(a).drop_first());
        assert(env_text(b.drop_first()) == env_text(b).drop_first());
        lemma_lookup_text(a.drop_first(), b.drop_first(), name);
    }
}

proof fn lemma_read_named_text(
    a: Seq<EnvVar>,
    b: Seq<EnvVar>,
    names: Seq<Seq<char>>,
    fail_unset: bool,
)
    requires
        env_text(a) == env_text(b),
    ensures
        read_named(a, names, fail_unset) == read_named(b, names, fail_unset),
    decreases names.len(),
{
    if names.len() > 0 {
        lemma_lookup_text(a, b, names[0]);
        lemma_read_named_text(a, b, names.drop_first(), fail_unset);
    }
}

proof fn lemma_read_all_text(a: Seq<EnvVar>, b: Seq<EnvVar>)
    requires
        env_text(a) == env_text(b),
    ensures
        read_all(a) == read_all(b),
    decreases a.len(),
{
    assert(a.len() == env_text(a).len() && b.len() == env_text(b).len());
    if a.len() > 0 {
        assert(env_text(a)[0] == env_text(b)[0]);
        assert(env_text(a.drop_first()) == env_text(a).drop_first());
        assert(env_text(b.drop_first()) == env_text(b).drop_first());
        lemma_read_all_text(a.drop_first(), b.drop_first());
    }
}

/// Two runs with configurations that say the same thing, on environments
/// that hold the same text, have the same outcome: the same lines, or the
/// same error.
pub proof fn law_same_inputs_same_outcome(c1: Config, c2: Config, env1: Seq<EnvVar>, env2: Seq<EnvVar>)
    requires
        same_settings(c1, c2),
        env_text(env1) == env_text(env2),
    ensures
        run_outcome(c1, env1) == run_outcome(c2, env2),
{
    lemma_read_all_text(env1, env2);
    lemma_read_named_text(
        env1,
        env2,
        crate::variables::requested(views(c1.variable_names@)),
        c1.fail_on_unset,
    );
    assert(values_for(c1, env1) == values_for(c2, env2));
}

/// The values of an environment whose values are all text.
pub open spec fn all_values(env: Seq<EnvVar>) -> Seq<Seq<char>> {
    env.map_values(|v: EnvVar| v.value->Some_0@)
}

/// The `k`-th entry of the value of the `i`-th variable.
pub open spec fn entry_at(env: Seq<EnvVar>, sep: char, i: int, k: int) -> Seq<char> {
    split_on(env[i].value->Some_0@, sep)[k]
}

proof fn lemma_read_all_values(env: Seq<EnvVar>)
    requires
        forall|i: int| 0 <= i < env.len() ==> (#[trigger] env[i]).value is Some,
    ensures
        read_all(env) == Ok::<Seq<Seq<char>>, crate::error::ErrorView>(all_values(env)),
    decreases env.len(),
{
    if env.len() > 0 {
        assert(forall|i: int| 0 <= i < env.len() - 1 ==> env.drop_first()[i] == env[i + 1]);
        lemma_read_all_values(env.drop_first());
        assert(seq![env[0].value->Some_0@] + all_values(env.drop_first()) == all_values(env));
    } else {
        assert(all_values(env) == Seq::<Seq<char>>::empty());
    }
}

proof fn lemma_entries_of_contains(values: Seq<Seq<char>>, sep: char, e: Seq<char>)
    ensures
        entries_of(values, sep).contains(e) <==> exists|i: int, k: int|
            0 <= i < values.len() && 0 <= k < split_on(values[i], sep).len()
                && #[trigger] split_on(values[i], sep)[k] == e,
    decreases values.len(),
{
    if values.len() > 0 {
        let prev = values.drop_last();
        let last = split_on(values.last(), sep);
        lemma_entries_of_contains(prev, sep, e);
        if entries_of(values, sep).contains(e) {
            if entries_of(prev, sep).contains(e) {
                let (i, k) = choose|i: int, k: int|
                    0 <= i < prev.len() && 0 <= k < split_on(prev[i], sep).len()
                        && #[trigger] split_on(prev[i], sep)[k] == e;
                assert(values[i] == prev[i]);
            } else {
                assert(last.contains(e));
                let k = choose|k: int| 0 <= k < last.len() && last[k] == e;
                assert(split_on(values[values.len() - 1], sep)[k] == e);
            }
        }
        if exists|i: int, k: int|
            0 <= i < values.len() && 0 <= k < split_on(values[i], sep).len()
                && #[trigger] split_on(values[i], sep)[k] == e {
            let (i, k) = choose|i: int, k: int|
                0 <= i < values.len() && 0 <= k < split_on(values[i], sep).len()
                    && #[trigger] split_on(values[i], sep)[k] == e;
            if i < prev.len() {
                assert(values[i] == prev[i]);
                assert(split_on(prev[i], sep)[k] == e);
            } else {
                assert(last[k] == e);
            }
        }
    }
}

proof fn lemma_matching_contains(entries: Seq<Seq<char>>, pattern: Seq<char>, e: Seq<char>)
    ensures
        matching(entries, pattern).contains(e) <==> entries.contains(e) && regex_matches(
            pattern,
            e,
        ),
    decreases entries.len(),
{
    if entries.len() > 0 {
        lemma_matching_contains(entries.drop_last(), pattern, e);
        assert(entries == entries.drop_last().push(entries.last()));
    }
}

/// When every variable is read, each entry of every variable's value that the
/// pattern matches is printed, and every printed line is an entry of the
/// value of some variable of the environment.
pub proof fn law_all_variables(c: Config, env: Seq<EnvVar>)
    requires
        c.all_variables,
        regex_compiles(c.pattern@),
        forall|i: int| 0 <= i < env.len() ==> (#[trigger] env[i]).value is Some,
    ensures
        run_outcome(c, env) is Ok,
        forall|i: int, k: int|
            0 <= i < env.len() && 0 <= k < split_on(env[i].value->Some_0@, c.separator).len()
                && regex_matches(c.pattern@, entry_at(env, c.separator, i, k))
                ==> run_outcome(c, env)->Ok_0.contains(#[trigger] entry_at(env, c.separator, i, k)),
        forall|line: Seq<char>|
            #[trigger] run_outcome(c, env)->Ok_0.contains(line) ==> exists|i: int, k: int|
                0 <= i < env.len() && 0 <= k < split_on(env[i].value->Some_0@, c.separator).len()
                    && #[trigger] entry_at(env, c.separator, i, k) == line,
{
    lemma_read_all_values(env);
    let values = all_values(env);
    let sep = c.separator;
    let all = entries_of(values, sep);
    let plain = matching(all, c.pattern@);
    let lines = run_outcome(c, env)->Ok_0;
    let _ = lemma_first_occurrences(plain);
    assert forall|x: Seq<char>| #[trigger] lines.contains(x) <==> plain.contains(x) by {}
    assert forall|i: int, k: int|
        0 <= i < env.len() && 0 <= k < split_on(env[i].value->Some_0@, sep).len()
            && regex_matches(c.pattern@, entry_at(env, sep, i, k)) implies lines.contains(
        #[trigger] entry_at(env, sep, i, k),
    ) by {
        let e = entry_at(env, sep, i, k);
        assert(values[i] == env[i].value->Some_0@);
        assert(split_on(values[i], sep)[k] == e);
        lemma_entries_of_contains(values, sep, e);
        lemma_matching_contains(all, c.pattern@, e);
    }
    assert forall|line: Seq<char>| #[trigger] lines.contains(line) implies exists|i: int, k: int|
        0 <= i < env.len() && 0 <= k < split_on(env[i].value->Some_0@, sep).len()
            && #[trigger] entry_at(env, sep, i, k) == line by {
        lemma_matching_contains(all, c.pattern@, line);
        lemma_entries_of_contains(values, sep, line);
        let (i, k) = choose|i: int, k: int|
            0 <= i < values.len() && 0 <= k < split_on(values[i], sep).len()
                && #[trigger] split_on(values[i], sep)[k] == line;
        assert(values[i] == env[i].value->Some_0@);
        assert(entry_at(env, sep, i, k) == line);
    }
}

} // verus!
