//! Laws of the extraction engine, stated over the spec-level model and proved
//! for every input: which tags a store can hold under each filter policy, and
//! the exact shape of the store under the include-all policy.

use vstd::prelude::*;

use crate::exif::{keeps, parse_result, run_from, stops, Mode};
use crate::text::{lines_of, tag_of, value_of};

verus! {

/// Whether some line at or after position `i` carries the normalized tag `t`.
pub open spec fn occurs(lines: Seq<Seq<char>>, i: int, t: Seq<char>) -> bool {
    exists|j: int| i <= j < lines.len() && #[trigger] tag_of(lines[j]) == t
}

/// Whether position `j` is the last line at or after position `i` whose
/// normalized tag is `t`.
pub open spec fn is_last_occurrence(lines: Seq<Seq<char>>, i: int, j: int, t: Seq<char>) -> bool {
    i <= j < lines.len() && tag_of(lines[j]) == t && (forall|k: int|
        j < k < lines.len() ==> #[trigger] tag_of(lines[k]) != t)
}

proof fn lemma_occurs_step(lines: Seq<Seq<char>>, i: int)
    requires
        0 <= i < lines.len(),
    ensures
        forall|t: Seq<char>|
            #![trigger occurs(lines, i, t)]
            #![trigger occurs(lines, i + 1, t)]
            occurs(lines, i, t) <==> (occurs(lines, i + 1, t) || tag_of(lines[i]) == t),
{
    assert forall|t: Seq<char>|
        occurs(lines, i, t) <==> (occurs(lines, i + 1, t) || tag_of(lines[i]) == t) by {
        if occurs(lines, i, t) {
            let j = choose|j: int| i <= j < lines.len() && #[trigger] tag_of(lines[j]) == t;
            if j != i {
                assert(occurs(lines, i + 1, t));
            }
        }
        if occurs(lines, i + 1, t) {
            let j = choose|j: int| i + 1 <= j < lines.len() && #[trigger] tag_of(lines[j]) == t;
            assert(i <= j < lines.len() && tag_of(lines[j]) == t);
            assert(occurs(lines, i, t));
        }
        if tag_of(lines[i]) == t {
            assert(i <= i < lines.len() && tag_of(lines[i]) == t);
            assert(occurs(lines, i, t));
        }
    }
}

proof fn lemma_run_kept(lines: Seq<Seq<char>>, mode: &Mode, i: int, acc: Map<Seq<char>, Seq<char>>)
    ensures
        forall|t: Seq<char>| #[trigger]
            run_from(lines, mode, i, acc).contains_key(t) ==> acc.contains_key(t) || (t.len() > 0
                && keeps(mode, t) && occurs(lines, i, t)),
    decreases lines.len() - i,
{
    let m = run_from(lines, mode, i, acc);
    if i < 0 || i >= lines.len() {
    } else {
        lemma_occurs_step(lines, i);
        let tag = tag_of(lines[i]);
        if tag.len() == 0 {
            lemma_run_kept(lines, mode, i + 1, acc);
            assert forall|t: Seq<char>| #[trigger] m.contains_key(t) implies acc.contains_key(t)
                || (t.len() > 0 && keeps(mode, t) && occurs(lines, i, t)) by {
                assert(run_from(lines, mode, i + 1, acc).contains_key(t) == m.contains_key(t));
            }
        } else {
            let acc2 = if keeps(mode, tag) {
                acc.insert(tag, value_of(lines[i]))
            } else {
                acc
            };
            if stops(mode, tag) {
                assert(m == acc2);
                assert forall|t: Seq<char>| #[trigger] m.contains_key(t) implies acc.contains_key(
                    t,
                ) || (t.len() > 0 && keeps(mode, t) && occurs(lines, i, t)) by {
                    if !acc.contains_key(t) {
                        assert(t == tag);
                    }
                }
            } else {
                lemma_run_kept(lines, mode, i + 1, acc2);
                assert forall|t: Seq<char>| #[trigger] m.contains_key(t) implies acc.contains_key(
                    t,
                ) || (t.len() > 0 && keeps(mode, t) && occurs(lines, i, t)) by {
                    assert(run_from(lines, mode, i + 1, acc2).contains_key(t) == m.contains_key(
                        t,
                    ));
                    if !acc.contains_key(t) && acc2.contains_key(t) {
                        assert(t == tag);
                    }
                }
            }
        }
    }
}

/// Law: the attribute store of an extraction never holds a tag whose
/// normalized name is empty; under a whitelist every retained tag is a member
/// of the whitelist set, and under a blacklist no retained tag is a member of
/// the blacklist set.
pub proof fn lemma_filter_invariant(text: Seq<char>, mode: &Mode)
    ensures
        forall|t: Seq<char>| #[trigger]
            parse_result(text, mode).contains_key(t) ==> t.len() > 0 && keeps(mode, t),
        forall|t: Seq<char>| #[trigger]
            parse_result(text, mode).contains_key(t) ==> match mode {
                Mode::All => true,
                Mode::Whitelist(list) => list@.contains(t),
                Mode::Blacklist(list) => !list@.contains(t),
            },
{
    lemma_run_kept(lines_of(text), mode, 0, Map::empty());
}

proof fn lemma_run_all(lines: Seq<Seq<char>>, mode: &Mode, i: int, acc: Map<Seq<char>, Seq<char>>)
    requires
        mode is All,
        0 <= i,
    ensures
        forall|t: Seq<char>| #[trigger]
            run_from(lines, mode, i, acc).contains_key(t) <==> acc.contains_key(t) || (t.len() > 0
                && occurs(lines, i, t)),
        forall|t: Seq<char>|
            (#[trigger] run_from(lines, mode, i, acc).contains_key(t) && t.len() > 0 && occurs(
                lines,
                i,
                t,
            )) ==> exists|j: int|
                #![trigger is_last_occurrence(lines, i, j, t)]
                is_last_occurrence(lines, i, j, t) && run_from(lines, mode, i, acc)[t] == value_of(
                    lines[j],
                ),
        forall|t: Seq<char>|
            (#[trigger] run_from(lines, mode, i, acc).contains_key(t) && !(t.len() > 0 && occurs(
                lines,
                i,
                t,
            ))) ==> run_from(lines, mode, i, acc)[t] == acc[t],
    decreases lines.len() - i,
{
    let m = run_from(lines, mode, i, acc);
    if i < 0 || i >= lines.len() {
    } else {
        lemma_occurs_step(lines, i);
        let tag = tag_of(lines[i]);
        let acc2 = if tag.len() == 0 {
            acc
        } else {
            acc.insert(tag, value_of(lines[i]))
        };
        lemma_run_all(lines, mode, i + 1, acc2);
        let m2 = run_from(lines, mode, i + 1, acc2);
        assert(m == m2);
        assert forall|t: Seq<char>| #[trigger]
            m.contains_key(t) <==> acc.contains_key(t) || (t.len() > 0 && occurs(
            lines,
            i,
            t,
        )) by {
            assert(m2.contains_key(t) <==> acc2.contains_key(t) || (t.len() > 0 && occurs(
                lines,
                i + 1,
                t,
            )));
            if tag.len() > 0 && t == tag {
                assert(occurs(lines, i, t));
            }
        }
        assert forall|t: Seq<char>|
            (#[trigger] m.contains_key(t) && t.len() > 0 && occurs(lines, i, t)) implies exists|
            j: int,
        |
            #![trigger is_last_occurrence(lines, i, j, t)]
            is_last_occurrence(lines, i, j, t) && m[t] == value_of(lines[j]) by {
            assert(m2.contains_key(t) <==> acc2.contains_key(t) || (t.len() > 0 && occurs(
                lines,
                i + 1,
                t,
            )));
            if occurs(lines, i + 1, t) {
                assert(m2.contains_key(t) && t.len() > 0 && occurs(lines, i + 1, t));
                let j2 = choose|j2: int|
                    #![trigger is_last_occurrence(lines, i + 1, j2, t)]
                    is_last_occurrence(lines, i + 1, j2, t) && m2[t] == value_of(lines[j2]);
                assert(is_last_occurrence(lines, i, j2, t));
            } else {
                // The only occurrence at or after `i` is line `i` itself.
                assert(t == tag);
                assert(!(t.len() > 0 && occurs(lines, i + 1, t)));
                assert(m2[t] == acc2[t]);
                assert(acc2[t] == value_of(lines[i]));
                assert forall|k: int| i < k < lines.len() implies #[trigger] tag_of(lines[k])
                    != t by {
                    if tag_of(lines[k]) == t {
                        assert(occurs(lines, i + 1, t));
                    }
                }
                assert(is_last_occurrence(lines, i, i, t));
            }
        }
        assert forall|t: Seq<char>|
            (#[trigger] m.contains_key(t) && !(t.len() > 0 && occurs(lines, i, t))) implies m[t]
            == acc[t] by {
            assert(m2.contains_key(t) <==> acc2.contains_key(t) || (t.len() > 0 && occurs(
                lines,
                i + 1,
                t,
            )));
            if tag.len() > 0 {
                assert(t != tag);
            }
            assert(acc2[t] == acc[t]);
            assert(m2[t] == acc2[t]);
        }
    }
}

/// Law: under the include-all policy the store holds exactly the distinct
/// non-empty normalized tags of the output's lines, and each tag's value is
/// the value of the last line that carries it.
pub proof fn lemma_all_mode_store(text: Seq<char>)
    ensures
        forall|t: Seq<char>| #[trigger]
            parse_result(text, &Mode::All).contains_key(t) <==> (t.len() > 0 && occurs(
                lines_of(text),
                0,
                t,
            )),
        forall|t: Seq<char>| #[trigger]
            parse_result(text, &Mode::All).contains_key(t) ==> exists|j: int|
                #![trigger is_last_occurrence(lines_of(text), 0, j, t)]
                is_last_occurrence(lines_of(text), 0, j, t) && parse_result(text, &Mode::All)[t]
                    == value_of(lines_of(text)[j]),
{
    lemma_run_all(lines_of(text), &Mode::All, 0, Map::empty());
}

} // verus!
