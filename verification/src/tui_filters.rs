//! The filter tree of the terminal interface: "All messages", one group
//! per top-level folder of the rules with the tags its rules give, and
//! "Untagged".

use vstd::prelude::*;
use crate::text::{chars_of, string_of, sub_chars, find_char, first_index_of, concat_str, str_eq};
use crate::tag_set::{TagSet, views, sorted_of};
use crate::setup::{FolderRule, FolderTagsConfig, HamsterConfig};
use crate::validation::strip_dash;

verus! {

/// One line of the filter tree.
pub struct FilterItem {
    /// What is shown.
    pub label: String,
    /// The tag it filters by; `None` for headers and "All messages".
    pub tag_value: Option<String>,
    /// Indentation level.
    pub depth: usize,
}

/// What an item means: label, tag, depth.
pub open spec fn item_view(it: FilterItem) -> (Seq<char>, Option<Seq<char>>, nat) {
    (
        it.label@,
        match it.tag_value {
            Some(t) => Some(t@),
            None => None,
        },
        it.depth as nat,
    )
}

pub open spec fn item_views(items: Seq<FilterItem>) -> Seq<(Seq<char>, Option<Seq<char>>, nat)> {
    items.map_values(|it: FilterItem| item_view(it))
}

/// The tag value of the "Untagged" item.
pub open spec fn untagged_value() -> Seq<char> {
    "__untagged__"@
}

/// The top-level folder of a rule's pattern: what comes before the first
/// `/`.
pub open spec fn group_of(pattern: Seq<char>) -> Seq<char> {
    match first_index_of(pattern, '/') {
        Some(i) => pattern.subrange(0, i),
        None => pattern,
    }
}

/// The non-empty top-level folders of the rules.
pub open spec fn group_names(rules: Seq<FolderRule>) -> Set<Seq<char>> {
    Set::new(
        |g: Seq<char>|
            g.len() > 0 && exists|i: int| 0 <= i < rules.len() && group_of((#[trigger] rules[i]).pattern@) == g,
    )
}

/// The tags, without a removal prefix, that the rules of a group give.
pub open spec fn group_tags(rules: Seq<FolderRule>, g: Seq<char>) -> Set<Seq<char>> {
    Set::new(
        |t: Seq<char>|
            t.len() > 0 && exists|i: int, j: int|
                #![trigger rules[i].tags@[j]]
                0 <= i < rules.len() && 0 <= j < rules[i].tags@.len() && group_of(rules[i].pattern@) == g
                    && strip_dash(rules[i].tags@[j]@) == t,
    )
}

/// A tag's item in the tree.
pub open spec fn tag_item() -> spec_fn(Seq<char>) -> (Seq<char>, Option<Seq<char>>, nat) {
    |t: Seq<char>| (t, Some(t), 1nat)
}

/// A group's header followed by its tags in ascending order.
pub open spec fn group_block(rules: Seq<FolderRule>) -> spec_fn(Seq<char>) -> Seq<(Seq<char>, Option<Seq<char>>, nat)> {
    |g: Seq<char>| seq![("📁 "@ + g, None, 0nat)] + sorted_of(group_tags(rules, g)).map_values(tag_item())
}

/// The whole tree: "All messages", the groups in ascending order (only when
/// folder tags are enabled and there are rules), then "Untagged".
pub open spec fn filter_layout(cfg: FolderTagsConfig) -> Seq<(Seq<char>, Option<Seq<char>>, nat)> {
    let all = ("All messages"@, None, 0nat);
    let untagged = ("Untagged"@, Some(untagged_value()), 0nat);
    if !cfg.enabled || cfg.rules@.len() == 0 {
        seq![all, untagged]
    } else {
        seq![all] + sorted_of(group_names(cfg.rules@)).map_values(group_block(cfg.rules@)).flatten()
            + seq![untagged]
    }
}

fn group_of_str(pattern: &str) -> (r: String)
    ensures
        r@ == group_of(pattern@),
{
    let v = chars_of(pattern);
    match find_char(&v, '/') {
        Some(i) => string_of(&sub_chars(&v, 0, i)),
        None => String::from_str(pattern),
    }
}

fn strip_dash_str(t: &str) -> (r: String)
    ensures
        r@ == strip_dash(t@),
{
    let v = chars_of(t);
    if v.len() > 0 && v[0] == '-' {
        let w = sub_chars(&v, 1, v.len());
        assert(w@ =~= t@.drop_first());
        string_of(&w)
    } else {
        String::from_str(t)
    }
}

/// The top-level folders of the rules.
fn collect_groups(rules: &Vec<FolderRule>) -> (r: TagSet)
    ensures
        r.wf(),
        r@ == group_names(rules@),
{
    let mut names = TagSet::new();
    let mut i: usize = 0;
    while i < rules.len()
        invariant
            i <= rules@.len(),
            names.wf(),
            names@ == group_names(rules@.take(i as int)),
        decreases rules.len() - i,
    {
        let g = group_of_str(rules[i].pattern.as_str());
        let ghost before = names@;
        if chars_of(g.as_str()).len() > 0 {
            names.insert(g.as_str());
        }
        proof {
            assert forall|x: Seq<char>| names@.contains(x) <==> group_names(rules@.take(i + 1)).contains(x) by {
                if group_names(rules@.take(i + 1)).contains(x) {
                    let k = choose|k: int| 0 <= k < rules@.take(i + 1).len() && group_of((#[trigger] rules@.take(i + 1)[k]).pattern@) == x;
                    if k < i {
                        assert(rules@.take(i as int)[k] == rules@.take(i + 1)[k]);
                    }
                }
                if before.contains(x) {
                    let k = choose|k: int| 0 <= k < rules@.take(i as int).len() && group_of((#[trigger] rules@.take(i as int)[k]).pattern@) == x;
                    assert(rules@.take(i + 1)[k] == rules@.take(i as int)[k]);
                }
                if x == g@ && x.len() > 0 {
                    assert(rules@.take(i + 1)[i as int] == rules@[i as int]);
                }
            }
            assert(names@ =~= group_names(rules@.take(i + 1)));
        }
        i += 1;
    }
    assert(rules@.take(rules@.len() as int) =~= rules@);
    names
}

/// The tags of one group.
fn collect_group_tags(rules: &Vec<FolderRule>, g: &str) -> (r: TagSet)
    ensures
        r.wf(),
        r@ == group_tags(rules@, g@),
{
    let mut tags = TagSet::new();
    let mut i: usize = 0;
    while i < rules.len()
        invariant
            i <= rules@.len(),
            tags.wf(),
            tags@ == group_tags(rules@.take(i as int), g@),
        decreases rules.len() - i,
    {
        let rule = &rules[i];
        let top = group_of_str(rule.pattern.as_str());
        let ghost start = tags@;
        if str_eq(top.as_str(), g) {
            let mut j: usize = 0;
            while j < rule.tags.len()
                invariant
                    j <= rule.tags@.len(),
                    tags.wf(),
                    group_of(rule.pattern@) == g@,
                    tags@ == start.union(
                        Set::new(|t: Seq<char>| t.len() > 0 && exists|k: int| 0 <= k < j && strip_dash(#[trigger] rule.tags@[k]@) == t),
                    ),
                decreases rule.tags.len() - j,
            {
                let clean = strip_dash_str(rule.tags[j].as_str());
                let ghost before = tags@;
                if chars_of(clean.as_str()).len() > 0 {
                    tags.insert(clean.as_str());
                }
                proof {
                    assert(tags@ =~= start.union(
                        Set::new(|t: Seq<char>| t.len() > 0 && exists|k: int| 0 <= k < j + 1 && strip_dash(#[trigger] rule.tags@[k]@) == t),
                    )) by {
                        assert forall|t: Seq<char>| tags@.contains(t) <==> start.union(
                            Set::new(|t: Seq<char>| t.len() > 0 && exists|k: int| 0 <= k < j + 1 && strip_dash(#[trigger] rule.tags@[k]@) == t),
                        ).contains(t) by {
                            if t == clean@ && t.len() > 0 {
                                assert(strip_dash(rule.tags@[j as int]@) == t);
                            }
                        }
                    }
                }
                j += 1;
            }
        }
        proof {
            let pre = rules@.take(i as int);
            let post = rules@.take(i + 1);
            assert forall|t: Seq<char>| tags@.contains(t) <==> group_tags(post, g@).contains(t) by {
                if group_tags(post, g@).contains(t) {
                    let (a, b) = choose|a: int, b: int|
                        #![trigger post[a].tags@[b]]
                        0 <= a < post.len() && 0 <= b < post[a].tags@.len() && group_of(post[a].pattern@) == g@
                            && strip_dash(post[a].tags@[b]@) == t;
                    if a < i {
                        assert(pre[a] == post[a]);
                        assert(group_tags(pre, g@).contains(t));
                    } else {
                        assert(post[a] == *rule);
                    }
                }
                if start.contains(t) {
                    let (a, b) = choose|a: int, b: int|
                        #![trigger pre[a].tags@[b]]
                        0 <= a < pre.len() && 0 <= b < pre[a].tags@.len() && group_of(pre[a].pattern@) == g@
                            && strip_dash(pre[a].tags@[b]@) == t;
                    assert(post[a] == pre[a]);
                    assert(group_tags(post, g@).contains(t));
                }
                if tags@.contains(t) && !start.contains(t) {
                    let k = choose|k: int| 0 <= k < rule.tags@.len() && strip_dash(#[trigger] rule.tags@[k]@) == t;
                    assert(post[i as int] == *rule);
                    assert(post[i as int].tags@[k] == rule.tags@[k]);
                }
            }
            assert(tags@ =~= group_tags(post, g@));
        }
        i += 1;
    }
    assert(rules@.take(rules@.len() as int) =~= rules@);
    tags
}

fn push_item(items: &mut Vec<FilterItem>, label: String, tag_value: Option<String>, depth: usize)
    ensures
        item_views(final(items)@) == item_views(old(items)@).push(
            (
                label@,
                match tag_value {
                    Some(t) => Some(t@),
                    None => None,
                },
                depth as nat,
            ),
        ),
{
    let ghost before = items@;
    let ghost it = FilterItem { label, tag_value, depth };
    items.push(FilterItem { label, tag_value, depth });
    assert(item_views(items@) =~= item_views(before).push(item_view(it)));
}

/// The filter tree for a configuration.
pub fn build_filter_items(config: &HamsterConfig) -> (r: Vec<FilterItem>)
    ensures
        item_views(r@) == filter_layout(config.folder_tags),
{
    let mut items: Vec<FilterItem> = Vec::new();
    push_item(&mut items, String::from_str("All messages"), None, 0);
    if !config.folder_tags.enabled || config.folder_tags.rules.len() == 0 {
        push_item(&mut items, String::from_str("Untagged"), Some(String::from_str("__untagged__")), 0);
        assert(item_views(items@) =~= filter_layout(config.folder_tags));
        return items;
    }
    let rules = &config.folder_tags.rules;
    let names = collect_groups(rules);
    proof {
        names.lemma_sorted_of();
    }
    let list = names.as_vec();
    let ghost gs = views(list@);
    let ghost blk = group_block(rules@);
    let mut k: usize = 0;
    assert(gs.take(0).map_values(blk).flatten() =~= Seq::<(Seq<char>, Option<Seq<char>>, nat)>::empty());
    while k < list.len()
        invariant
            k <= list@.len(),
            gs == views(list@),
            gs == sorted_of(group_names(rules@)),
            blk == group_block(rules@),
            item_views(items@) == seq![("All messages"@, None::<Seq<char>>, 0nat)] + gs.take(k as int).map_values(blk).flatten(),
        decreases list.len() - k,
    {
        let g = &list[k];
        let ghost before = item_views(items@);
        let label = concat_str("📁 ", g.as_str());
        push_item(&mut items, label, None, 0);
        let tags = collect_group_tags(rules, g.as_str());
        proof {
            tags.lemma_sorted_of();
        }
        let tv = tags.as_vec();
        let mut j: usize = 0;
        while j < tv.len()
            invariant
                j <= tv@.len(),
                views(tv@) == sorted_of(group_tags(rules@, g@)),
                item_views(items@) == before.push(("📁 "@ + g@, None::<Seq<char>>, 0nat)) + views(tv@).take(j as int).map_values(tag_item()),
            decreases tv.len() - j,
        {
            push_item(&mut items, tv[j].clone(), Some(tv[j].clone()), 1);
            assert(views(tv@).take(j + 1).map_values(tag_item()) =~= views(tv@).take(j as int).map_values(tag_item()).push((tv@[j as int]@, Some(tv@[j as int]@), 1nat)));
            assert(item_views(items@) =~= before.push(("📁 "@ + g@, None::<Seq<char>>, 0nat)) + views(tv@).take(j + 1).map_values(tag_item()));
            j += 1;
        }
        proof {
            assert(views(tv@).take(tv@.len() as int) =~= views(tv@));
            assert(gs[k as int] == g@);
            assert(blk(g@) =~= seq![("📁 "@ + g@, None::<Seq<char>>, 0nat)] + views(tv@).map_values(tag_item()));
            assert(gs.take(k + 1).map_values(blk) =~= gs.take(k as int).map_values(blk).push(blk(g@)));
            gs.take(k as int).map_values(blk).lemma_flatten_push(blk(g@));
            assert(item_views(items@) =~= seq![("All messages"@, None::<Seq<char>>, 0nat)] + gs.take(k + 1).map_values(blk).flatten());
        }
        k += 1;
    }
    assert(gs.take(gs.len() as int) =~= gs);
    push_item(&mut items, String::from_str("Untagged"), Some(String::from_str("__untagged__")), 0);
    assert(item_views(items@) =~= filter_layout(config.folder_tags));
    items
}

} // verus!
