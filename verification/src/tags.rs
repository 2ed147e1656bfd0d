use vstd::prelude::*;

verus! {

/// The tag list after the additive half of a change set: tags already
/// present stay where they are, and each absent tag of `add` is appended,
/// front to back.
pub open spec fn with_tags_added(tags: Seq<Seq<char>>, add: Seq<Seq<char>>) -> Seq<Seq<char>>
    decreases add.len(),
{
    if add.len() == 0 {
        tags
    } else {
        let step = if tags.contains(add[0]) {
            tags
        } else {
            tags.push(add[0])
        };
        with_tags_added(step, add.skip(1))
    }
}

/// The tag list after the subtractive half of a change set: the tags that
/// `remove` does not name, in their old order.
pub open spec fn with_tags_removed(tags: Seq<Seq<char>>, remove: Seq<Seq<char>>) -> Seq<Seq<char>>
    decreases tags.len(),
{
    if tags.len() == 0 {
        Seq::empty()
    } else {
        let rest = with_tags_removed(tags.drop_last(), remove);
        if remove.contains(tags.last()) {
            rest
        } else {
            rest.push(tags.last())
        }
    }
}

/// The tag list after one whole change set: the additive set applied first,
/// the subtractive set second, so a tag named in both ends up removed.
pub open spec fn applied_tags(
    tags: Seq<Seq<char>>,
    add: Option<Seq<Seq<char>>>,
    remove: Option<Seq<Seq<char>>>,
) -> Seq<Seq<char>> {
    let added = match add {
        Some(a) => with_tags_added(tags, a),
        None => tags,
    };
    match remove {
        Some(r) => with_tags_removed(added, r),
        None => added,
    }
}

/// The tags an optional change half names; an absent half names none.
pub open spec fn opt_tags(o: Option<Seq<Seq<char>>>) -> Seq<Seq<char>> {
    match o {
        Some(s) => s,
        None => Seq::empty(),
    }
}

/// A sequence holds `t` exactly when its front part does or its last
/// element is `t`.
proof fn lemma_contains_split(s: Seq<Seq<char>>, t: Seq<char>)
    requires
        s.len() > 0,
    ensures
        s.contains(t) <==> (s.drop_last().contains(t) || s.last() == t),
{
    if s.contains(t) {
        let i = choose|i: int| 0 <= i < s.len() && s[i] == t;
        if i < s.len() - 1 {
            assert(s.drop_last()[i] == t);
        }
    }
    if s.drop_last().contains(t) {
        let i = choose|i: int| 0 <= i < s.drop_last().len() && s.drop_last()[i] == t;
        assert(s[i] == t);
    }
}

/// What the additive half leaves: membership is the union of the old tags
/// and the added ones, and a duplicate-free list stays duplicate-free — in
/// particular, adding a tag already present does not duplicate it.
pub proof fn lemma_with_tags_added(tags: Seq<Seq<char>>, add: Seq<Seq<char>>)
    ensures
        forall|t: Seq<char>| #[trigger]
            with_tags_added(tags, add).contains(t) <==> (tags.contains(t) || add.contains(t)),
        tags.no_duplicates() ==> with_tags_added(tags, add).no_duplicates(),
    decreases add.len(),
{
    if add.len() == 0 {
        assert forall|t: Seq<char>| #[trigger]
            with_tags_added(tags, add).contains(t) <==> (tags.contains(t) || add.contains(
            t,
        )) by {
            assert(!add.contains(t));
        }
    } else {
        let step = if tags.contains(add[0]) {
            tags
        } else {
            tags.push(add[0])
        };
        lemma_with_tags_added(step, add.skip(1));
        assert forall|t: Seq<char>| #[trigger]
            with_tags_added(tags, add).contains(t) <==> (tags.contains(t) || add.contains(
            t,
        )) by {
            assert(with_tags_added(tags, add) == with_tags_added(step, add.skip(1)));
            assert(with_tags_added(step, add.skip(1)).contains(t) <==> (step.contains(t)
                || add.skip(1).contains(t)));
            assert(step.contains(t) <==> (tags.contains(t) || t == add[0])) by {
                if tags.contains(add[0]) {
                } else {
                    lemma_contains_split(tags.push(add[0]), t);
                    assert(tags.push(add[0]).drop_last() =~= tags);
                }
            }
            assert(add.contains(t) <==> (t == add[0] || add.skip(1).contains(t))) by {
                if add.contains(t) {
                    let i = choose|i: int| 0 <= i < add.len() && add[i] == t;
                    if i > 0 {
                        assert(add.skip(1)[i - 1] == t);
                    }
                } else {
                    if add.skip(1).contains(t) {
                        let i = choose|i: int| 0 <= i < add.skip(1).len() && add.skip(1)[i] == t;
                        assert(add[i + 1] == t);
                    }
                    assert(add[0] != t);
                }
            }
        }
        if tags.no_duplicates() && !tags.contains(add[0]) {
            assert forall|i: int, j: int|
                0 <= i < step.len() && 0 <= j < step.len() && i != j implies step[i]
                != step[j] by {
                if i == step.len() - 1 {
                    assert(tags[j] == step[j]);
                } else if j == step.len() - 1 {
                    assert(tags[i] == step[i]);
                }
            }
        }
    }
}

/// What the subtractive half leaves: exactly the tags that `remove` does
/// not name, and a duplicate-free list stays duplicate-free.
pub proof fn lemma_with_tags_removed(tags: Seq<Seq<char>>, remove: Seq<Seq<char>>)
    ensures
        forall|t: Seq<char>| #[trigger]
            with_tags_removed(tags, remove).contains(t) <==> (tags.contains(t)
            && !remove.contains(t)),
        tags.no_duplicates() ==> with_tags_removed(tags, remove).no_duplicates(),
    decreases tags.len(),
{
    if tags.len() == 0 {
    } else {
        let l = tags.drop_last();
        let last = tags.last();
        let rest = with_tags_removed(l, remove);
        assert forall|i: int, j: int|
            tags.no_duplicates() && 0 <= i < l.len() && 0 <= j < l.len() && i != j implies l[i]
            != l[j] by {
            assert(l[i] == tags[i] && l[j] == tags[j]);
        }
        lemma_with_tags_removed(l, remove);
        assert forall|t: Seq<char>| #[trigger]
            with_tags_removed(tags, remove).contains(t) <==> (tags.contains(t)
            && !remove.contains(t)) by {
            lemma_contains_split(tags, t);
            if !remove.contains(last) {
                lemma_contains_split(rest.push(last), t);
                assert(rest.push(last).drop_last() =~= rest);
            }
        }
        if tags.no_duplicates() && !remove.contains(last) {
            assert(!l.contains(last)) by {
                if l.contains(last) {
                    let i = choose|i: int| 0 <= i < l.len() && l[i] == last;
                    assert(tags[i] == tags[tags.len() - 1]);
                }
            }
            assert forall|i: int, j: int|
                0 <= i < rest.push(last).len() && 0 <= j < rest.push(last).len() && i
                != j implies rest.push(last)[i] != rest.push(last)[j] by {
                if i == rest.len() {
                    assert(rest.contains(rest[j]));
                } else if j == rest.len() {
                    assert(rest.contains(rest[i]));
                }
            }
        }
    }
}

/// The tag law: applying a change set to a duplicate-free tag list yields a
/// duplicate-free list whose members are the old and the added tags, less
/// the removed ones. So adding a tag already present does not duplicate it,
/// and a tag both added and removed in one change set ends up absent.
pub proof fn lemma_applied_tags(
    tags: Seq<Seq<char>>,
    add: Option<Seq<Seq<char>>>,
    remove: Option<Seq<Seq<char>>>,
)
    requires
        tags.no_duplicates(),
    ensures
        applied_tags(tags, add, remove).no_duplicates(),
        forall|t: Seq<char>| #[trigger]
            applied_tags(tags, add, remove).contains(t) <==> ((tags.contains(t) || opt_tags(
            add,
        ).contains(t)) && !opt_tags(remove).contains(t)),
{
    let added = match add {
        Some(a) => with_tags_added(tags, a),
        None => tags,
    };
    match add {
        Some(a) => lemma_with_tags_added(tags, a),
        None => (),
    }
    match remove {
        Some(r) => lemma_with_tags_removed(added, r),
        None => (),
    }
    assert(forall|t: Seq<char>| !opt_tags(None::<Seq<Seq<char>>>).contains(t));
}

/// Whether one of `tags` reads as `t`.
pub fn contains_tag(tags: &Vec<String>, t: &String) -> (r: bool)
    ensures
        r == tags.deep_view().contains(t@),
{
    let n = tags.len();
    let mut k: usize = 0;
    while k < n
        invariant
            k <= n,
            n == tags.len(),
            forall|i: int| 0 <= i < k ==> tags.deep_view()[i] != t@,
        decreases n - k,
    {
        if tags[k].eq(t) {
            assert(tags.deep_view()[k as int] == t@);
            return true;
        }
        assert(tags.deep_view()[k as int] == tags@[k as int]@);
        k = k + 1;
    }
    false
}

/// Appends the tags of `add` that are not yet present, in the order given.
pub fn add_tags_to(tags: &mut Vec<String>, add: &Vec<String>)
    ensures
        final(tags).deep_view() == with_tags_added(old(tags).deep_view(), add.deep_view()),
{
    let ghost full = with_tags_added(old(tags).deep_view(), add.deep_view());
    proof {
        assert(add.deep_view().skip(0) =~= add.deep_view());
    }
    let n = add.len();
    let mut k: usize = 0;
    while k < n
        invariant
            k <= n,
            n == add.len(),
            with_tags_added(tags.deep_view(), add.deep_view().skip(k as int)) == full,
        decreases n - k,
    {
        let ghost pre = tags.deep_view();
        let ghost rest = add.deep_view().skip(k as int);
        proof {
            assert(rest[0] == add.deep_view()[k as int]);
            assert(rest.skip(1) =~= add.deep_view().skip(k as int + 1));
            assert(add.deep_view()[k as int] == add@[k as int]@);
        }
        if !contains_tag(tags, &add[k]) {
            tags.push(add[k].clone());
            proof {
                assert(tags.deep_view() =~= pre.push(add@[k as int]@));
            }
        }
        k = k + 1;
    }
    proof {
        assert(add.deep_view().skip(n as int) =~= Seq::<Seq<char>>::empty());
    }
}

/// Keeps the tags that the subtractive half does not name, in order.
fn remove_tags_from(tags: &Vec<String>, remove: &Vec<String>) -> (r: Vec<String>)
    ensures
        r.deep_view() == with_tags_removed(tags.deep_view(), remove.deep_view()),
{
    let mut out: Vec<String> = Vec::new();
    let n = tags.len();
    let mut k: usize = 0;
    while k < n
        invariant
            k <= n,
            n == tags.len(),
            out.deep_view() == with_tags_removed(
                tags.deep_view().take(k as int),
                remove.deep_view(),
            ),
        decreases n - k,
    {
        let ghost pre = out.deep_view();
        proof {
            assert(tags.deep_view().take(k as int + 1).drop_last() =~= tags.deep_view().take(
                k as int,
            ));
            assert(tags.deep_view().take(k as int + 1).last() == tags.deep_view()[k as int]);
            assert(tags.deep_view()[k as int] == tags@[k as int]@);
        }
        if !contains_tag(remove, &tags[k]) {
            out.push(tags[k].clone());
            proof {
                assert(out.deep_view() =~= pre.push(tags@[k as int]@));
            }
        }
        k = k + 1;
    }
    proof {
        assert(tags.deep_view().take(n as int) =~= tags.deep_view());
    }
    out
}

/// Applies one change set to a tag list: the additive set first, the
/// subtractive set second.
pub fn apply_tag_changes(
    tags: Vec<String>,
    add: &Option<Vec<String>>,
    remove: &Option<Vec<String>>,
) -> (r: Vec<String>)
    ensures
        r.deep_view() == applied_tags(tags.deep_view(), add.deep_view(), remove.deep_view()),
{
    let mut cur = tags;
    match add {
        Some(a) => add_tags_to(&mut cur, a),
        None => (),
    }
    match remove {
        Some(rm) => remove_tags_from(&cur, rm),
        None => cur,
    }
}

} // verus!
