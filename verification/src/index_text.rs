//! The text stored for a multi-part message: its text parts, trimmed, and
//! those of attached messages, within a budget of bytes, joined by blank
//! lines.

use vstd::prelude::*;
use vstd::utf8::{encode_utf8, decode_utf8, is_char_boundary};
use crate::text::{trim, trim_str, concat_str};
use crate::tag_set::views;

verus! {

/// The text budget of one message, in bytes.
pub const TEXT_BUDGET: usize = 524288;

/// The parts of a MIME message that may carry text: its text bodies in
/// order, each `None` where the part holds no plain text, and its
/// attachments, each `None` where it is not a message.
pub struct MimeNode {
    pub texts: Vec<Option<String>>,
    pub attached: Vec<Option<MimeNode>>,
}

/// The texts of a list of optional strings.
pub open spec fn opt_views(v: Seq<Option<String>>) -> Seq<Option<Seq<char>>> {
    v.map_values(|o: Option<String>| match o {
        Some(s) => Some(s@),
        None => None,
    })
}

/// The UTF-8 length of a text.
pub open spec fn byte_len(s: Seq<char>) -> nat {
    encode_utf8(s).len()
}

/// The text made of the first `k` bytes of `s`.
pub open spec fn byte_prefix(s: Seq<char>, k: nat) -> Seq<char> {
    decode_utf8(encode_utf8(s).subrange(0, k as int))
}

/// `budget.saturating_sub(n)`.
pub open spec fn sat_sub(budget: nat, n: nat) -> nat {
    if n >= budget {
        0
    } else {
        (budget - n) as nat
    }
}

/// The pieces taken from a list of texts, and the budget left; `None` when
/// a piece would end inside a character.
pub open spec fn take_texts(texts: Seq<Option<Seq<char>>>, budget: nat) -> Option<(Seq<Seq<char>>, nat)>
    decreases texts.len(),
{
    if texts.len() == 0 || budget == 0 {
        Some((Seq::empty(), budget))
    } else if texts[0] is None {
        take_texts(texts.drop_first(), budget)
    } else {
        let t = trim(texts[0]->0);
        if t.len() == 0 {
            take_texts(texts.drop_first(), budget)
        } else {
            let take = if byte_len(t) < budget {
                byte_len(t)
            } else {
                budget
            };
            if !is_char_boundary(encode_utf8(t), take as int) {
                None
            } else {
                match take_texts(texts.drop_first(), sat_sub(budget, byte_len(t))) {
                    Some((rest, b)) => Some((seq![byte_prefix(t, take)] + rest, b)),
                    None => None,
                }
            }
        }
    }
}

/// The text of a message and the budget left; `None` when a piece would
/// end inside a character.
pub open spec fn node_text(node: MimeNode, budget: nat) -> Option<(Seq<char>, nat)>
    decreases node, 1nat,
{
    match take_texts(opt_views(node.texts@), budget) {
        Some((parts, b1)) => {
            proof {
                assert(decreases_to!(node => node.attached));
            }
            match attached_texts(node.attached@, b1) {
                Some((more, b2)) => Some((join_blank(parts + more), b2)),
                None => None,
            }
        },
        None => None,
    }
}

/// The non-empty texts of attached messages, in order, and the budget
/// left.
pub open spec fn attached_texts(nodes: Seq<Option<MimeNode>>, budget: nat) -> Option<(Seq<Seq<char>>, nat)>
    decreases nodes, 0nat,
{
    if nodes.len() == 0 || budget == 0 {
        Some((Seq::empty(), budget))
    } else if nodes[0] is None {
        attached_texts(nodes.drop_first(), budget)
    } else {
        proof {
            assert(decreases_to!(nodes => nodes[0]));
        }
        match node_text(nodes[0]->0, budget) {
            Some((inner, b1)) => match attached_texts(nodes.drop_first(), b1) {
                Some((rest, b2)) => Some(
                    (if inner.len() > 0 {
                        seq![inner] + rest
                    } else {
                        rest
                    }, b2),
                ),
                None => None,
            },
            None => None,
        }
    }
}

/// Every trimmed text is shorter than the address space.
pub open spec fn texts_fit(ts: Seq<Option<Seq<char>>>) -> bool {
    forall|i: int| 0 <= i < ts.len() && #[trigger] ts[i] is Some ==> byte_len(trim(ts[i]->0)) <= usize::MAX
}

/// Every text of the message and of attached messages fits in memory, as
/// the texts of a message held in memory do.
pub open spec fn node_fits(node: MimeNode) -> bool
    decreases node, 1nat,
{
    proof {
        assert(decreases_to!(node => node.attached));
    }
    texts_fit(opt_views(node.texts@)) && all_fit(node.attached@)
}

pub open spec fn all_fit(nodes: Seq<Option<MimeNode>>) -> bool
    decreases nodes, 0nat,
{
    nodes.len() == 0 || ((nodes[0] is Some ==> {
        proof {
            assert(decreases_to!(nodes => nodes[0]));
        }
        node_fits(nodes[0]->0)
    }) && all_fit(nodes.drop_first()))
}

/// Pieces joined by blank lines.
pub open spec fn join_blank(parts: Seq<Seq<char>>) -> Seq<char>
    decreases parts.len(),
{
    if parts.len() == 0 {
        Seq::empty()
    } else if parts.len() == 1 {
        parts[0]
    } else {
        parts[0] + "\n\n"@ + join_blank(parts.drop_first())
    }
}

fn join_parts(parts: &Vec<String>) -> (r: String)
    ensures
        r@ == join_blank(views(parts@)),
{
    let ghost ps = views(parts@);
    if parts.len() == 0 {
        return String::new();
    }
    let mut i: usize = parts.len() - 1;
    let mut acc = parts[i].clone();
    assert(ps.skip(i as int) =~= seq![ps[i as int]]);
    while i > 0
        invariant
            i < parts@.len(),
            ps == views(parts@),
            acc@ == join_blank(ps.skip(i as int)),
        decreases i,
    {
        let s = concat_str(parts[i - 1].as_str(), "\n\n");
        let s = concat_str(s.as_str(), acc.as_str());
        assert(ps.skip(i - 1).drop_first() =~= ps.skip(i as int));
        assert(ps.skip(i - 1)[0] == parts@[i - 1]@);
        acc = s;
        i -= 1;
    }
    assert(ps.skip(0) =~= ps);
    acc
}

/// The pieces of a list of texts within the budget; `None` when a piece
/// would end inside a character.
fn take_text_parts(texts: &Vec<Option<String>>, budget: &mut usize, out: &mut Vec<String>) -> (ok: bool)
    requires
        texts_fit(opt_views(texts@)),
    ensures
        ({
            let spec = take_texts(opt_views(texts@), *old(budget) as nat);
            match spec {
                Some((parts, b)) => ok && *final(budget) == b && views(final(out)@)
                    == views(old(out)@) + parts,
                None => !ok,
            }
        }),
{
    let ghost ts = opt_views(texts@);
    let ghost b0 = *budget;
    let ghost out0 = views(out@);
    let mut i: usize = 0;
    let ghost mut taken: Seq<Seq<char>> = Seq::empty();
    assert(ts.skip(0) =~= ts);
    while i < texts.len()
        invariant
            i <= texts@.len(),
            ts == opt_views(texts@),
            texts_fit(ts),
            b0 == *old(budget),
            out0 == views(old(out)@),
            views(out@) == out0 + taken,
            take_texts(ts, b0 as nat) == match take_texts(ts.skip(i as int), *budget as nat) {
                Some((rest, b)) => Some((taken + rest, b)),
                None => None,
            },
        ensures
            i >= texts@.len() || *budget == 0,
            i <= texts@.len(),
            views(out@) == out0 + taken,
            take_texts(ts, b0 as nat) == match take_texts(ts.skip(i as int), *budget as nat) {
                Some((rest, b)) => Some((taken + rest, b)),
                None => None,
            },
        decreases texts.len() - i,
    {
        if *budget == 0 {
            break;
        }
        let ghost sk = ts.skip(i as int);
        proof {
            assert(sk[0] == ts[i as int]);
            assert(sk.drop_first() =~= ts.skip(i + 1));
        }
        if let Some(raw) = &texts[i] {
            let t = trim_str(raw.as_str());
            let ts_ = t.as_str();
            let n = ts_.len();
            proof {
                assert(ts[i as int] == Some(raw@));
                assert(byte_len(trim(ts[i as int]->0)) <= usize::MAX);
                assert(n == byte_len(t@));
            }
            if !t.as_str().is_empty() {
                let take: usize = if n < *budget {
                    n
                } else {
                    *budget
                };
                if !t.as_str().is_char_boundary(take) {
                    assert(trim(sk[0]->0) == t@);
                    assert(t@.len() != 0);
                    assert(!is_char_boundary(encode_utf8(t@), take as int));
                    assert(take_texts(sk, *budget as nat) is None);
                    assert(take_texts(ts, b0 as nat) is None);
                    assert(b0 == *old(budget));
                    return false;
                }
                let (head, _tail) = t.as_str().split_at(take);
                let piece = String::from_str(head);
                proof {
                    vstd::utf8::encode_utf8_decode_utf8(head@);
                    assert(piece@ == byte_prefix(t@, take as nat));
                }
                let ghost before = out@;
                out.push(piece);
                proof {
                    assert(views(out@) =~= views(before).push(piece@));
                    assert(taken + (seq![piece@] + Seq::<Seq<char>>::empty()) =~= taken.push(piece@));
                    assert forall|rest: Seq<Seq<char>>| #![auto] taken + (seq![piece@] + rest) =~= taken.push(piece@) + rest by {}
                    taken = taken.push(piece@);
                }
                *budget = if n >= *budget {
                    0
                } else {
                    *budget - n
                };
            }
        }
        i += 1;
    }
    proof {
        if i >= texts@.len() {
            assert(ts.skip(i as int).len() == 0);
        }
        assert(take_texts(ts.skip(i as int), *budget as nat) == Some((Seq::<Seq<char>>::empty(), *budget as nat)));
        assert(taken + Seq::<Seq<char>>::empty() =~= taken);
    }
    true
}

/// The text of a message within the budget; `None` when a piece would end
/// inside a character, where slicing the text would fail.
fn node_text_parts(node: &MimeNode, budget: &mut usize) -> (r: Option<String>)
    requires
        node_fits(*node),
    ensures
        match node_text(*node, *old(budget) as nat) {
            Some((text, b)) => r is Some && r->0@ == text && *final(budget) == b,
            None => r is None,
        },
    decreases node, 1nat,
{
    let mut parts: Vec<String> = Vec::new();
    let ghost b0 = *budget;
    if !take_text_parts(&node.texts, budget, &mut parts) {
        return None;
    }
    let ghost b1 = *budget;
    let ghost p1 = views(parts@);
    assert(p1 =~= Seq::<Seq<char>>::empty() + p1);
    let ghost kids = node.attached@;
    let mut j: usize = 0;
    let ghost mut more: Seq<Seq<char>> = Seq::empty();
    assert(kids.skip(0) =~= kids);
    while j < node.attached.len()
        invariant
            j <= kids.len(),
            kids == node.attached@,
            all_fit(kids.skip(j as int)),
            take_texts(opt_views(node.texts@), *old(budget) as nat) == Some((p1, b1 as nat)),
            views(parts@) == p1 + more,
            attached_texts(kids, b1 as nat) == match attached_texts(kids.skip(j as int), *budget as nat) {
                Some((rest, b)) => Some((more + rest, b)),
                None => None,
            },
        ensures
            j >= kids.len() || *budget == 0,
            j <= kids.len(),
            views(parts@) == p1 + more,
            attached_texts(kids, b1 as nat) == match attached_texts(kids.skip(j as int), *budget as nat) {
                Some((rest, b)) => Some((more + rest, b)),
                None => None,
            },
        decreases kids.len() - j,
    {
        if *budget == 0 {
            break;
        }
        let ghost sk = kids.skip(j as int);
        proof {
            assert(sk[0] == kids[j as int]);
            assert(sk.drop_first() =~= kids.skip(j + 1));
            assert(decreases_to!(node => node.attached));
        }
        if let Some(child) = &node.attached[j] {
            proof {
                assert(decreases_to!(node.attached@ => node.attached@[j as int]));
            }
            let inner = node_text_parts(child, budget);
            match inner {
                Some(text) => {
                    if !text.as_str().is_empty() {
                        let ghost before = parts@;
                        let ghost tv = text@;
                        parts.push(text);
                        proof {
                            assert(views(parts@) =~= views(before).push(tv));
                            assert forall|rest: Seq<Seq<char>>| #![auto] more + (seq![tv] + rest) =~= more.push(tv) + rest by {}
                            more = more.push(tv);
                        }
                    }
                },
                None => {
                    return None;
                },
            }
        }
        j += 1;
    }
    proof {
        if j >= kids.len() {
            assert(kids.skip(j as int).len() == 0);
        }
        assert(attached_texts(kids.skip(j as int), *budget as nat) == Some((Seq::<Seq<char>>::empty(), *budget as nat)));
        assert(more + Seq::<Seq<char>>::empty() =~= more);
    }
    Some(join_parts(&parts))
}

/// Every text of a message held in memory fits in the address space.
pub fn check_fits(node: &MimeNode)
    ensures
        node_fits(*node),
    decreases node,
{
    let ghost ts = opt_views(node.texts@);
    let mut i: usize = 0;
    while i < node.texts.len()
        invariant
            i <= node.texts@.len(),
            ts == opt_views(node.texts@),
            forall|k: int| 0 <= k < i && #[trigger] ts[k] is Some ==> byte_len(trim(ts[k]->0)) <= usize::MAX,
        decreases node.texts.len() - i,
    {
        if let Some(raw) = &node.texts[i] {
            let t = trim_str(raw.as_str());
            let b = t.as_str().as_bytes();
            let _n = b.len();
            assert(ts[i as int] == Some(raw@));
        }
        i += 1;
    }
    let kids = &node.attached;
    let mut j: usize = kids.len();
    assert(kids@.skip(j as int) =~= Seq::<Option<MimeNode>>::empty());
    while j > 0
        invariant
            j <= kids@.len(),
            kids == &node.attached,
            all_fit(kids@.skip(j as int)),
        decreases j,
    {
        if let Some(child) = &kids[j - 1] {
            proof {
                assert(decreases_to!(node.attached@ => node.attached@[j - 1]));
            }
            check_fits(child);
        }
        assert(kids@.skip(j - 1).drop_first() =~= kids@.skip(j as int));
        assert(kids@.skip(j - 1)[0] == kids@[j - 1]);
        j -= 1;
    }
    assert(kids@.skip(0) =~= kids@);
}

/// The text of a multi-part message, within the budget; `None` exactly when
/// a text part would be cut inside a character.
pub fn try_collect_text_parts(message: &MimeNode) -> (r: Option<String>)
    requires
        node_fits(*message),
    ensures
        match node_text(*message, TEXT_BUDGET as nat) {
            Some((text, _)) => r is Some && r->0@ == text,
            None => r is None,
        },
{
    let mut budget: usize = TEXT_BUDGET;
    node_text_parts(message, &mut budget)
}

/// The text collected from a message within the whole budget.
pub open spec fn collected(message: MimeNode) -> Seq<char> {
    match node_text(message, TEXT_BUDGET as nat) {
        Some((text, _)) => text,
        None => Seq::empty(),
    }
}

/// The text of a multi-part message: text parts trimmed and cut to the
/// budget, then those of attached messages, joined by blank lines.
pub fn collect_text_parts(message: &MimeNode) -> (r: String)
    requires
        node_fits(*message),
        node_text(*message, TEXT_BUDGET as nat) is Some,
    ensures
        r@ == collected(*message),
{
    match try_collect_text_parts(message) {
        Some(t) => t,
        None => String::new(),
    }
}

} // verus!
