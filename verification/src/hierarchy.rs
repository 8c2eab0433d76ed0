//! Laws of the span hierarchy of a valid capture storage: parent and child links agree,
//! ancestors lead to a root span, and the depth-first listing of descendants holds each span
//! below a span exactly once (in the order of capture when spans were captured in a nested
//! way).
use vstd::prelude::*;

use crate::capture::{
    ancestor_chain, descendants_of, lists_exactly, storage_wf, subtree_list, StorageView,
};

verus! {

/// Every child of a captured span has that span as its parent, and children are captured
/// after their parent.
pub proof fn law_children_have_parent(v: StorageView, i: usize, k: int)
    requires
        storage_wf(v),
        0 <= i < v.spans.len(),
        0 <= k < v.spans[i as int].children.len(),
    ensures
        v.spans[i as int].children[k] < v.spans.len(),
        v.spans[v.spans[i as int].children[k] as int].parent == Some(i),
        i < v.spans[i as int].children[k],
{
    assert(lists_exactly(
        v.spans[i as int].children,
        |j: int| v.spans[j].parent == Some(i),
        v.spans.len() as int,
    ));
    let c = v.spans[i as int].children[k] as int;
    assert(match v.spans[c].parent {
        Some(p) => p < c,
        None => true,
    });
}

/// Every captured span with a parent is listed among the children of that parent; every one
/// without a captured parent is listed among the root spans.
pub proof fn law_span_listed_by_parent(v: StorageView, j: int)
    requires
        storage_wf(v),
        0 <= j < v.spans.len(),
    ensures
        match v.spans[j].parent {
            Some(p) => p < j && v.spans[p as int].children.contains(j as usize),
            None => v.root_spans.contains(j as usize),
        },
{
    let pj = |x: int| v.spans[x].parent is None;
    assert(match v.spans[j].parent {
        Some(p) => p < j,
        None => true,
    });
    match v.spans[j].parent {
        Some(p) => {
            let q = |x: int| v.spans[x].parent == Some(p);
            assert(lists_exactly(v.spans[p as int].children, q, v.spans.len() as int));
            assert(q(j));
        },
        None => {
            assert(pj(j));
        },
    }
}

/// Every captured event with a parent is listed among the events of that parent; every one
/// without a captured parent is listed among the root events.
pub proof fn law_event_listed_by_parent(v: StorageView, e: int)
    requires
        storage_wf(v),
        0 <= e < v.events.len(),
    ensures
        match v.events[e].parent {
            Some(p) => p < v.spans.len() && v.spans[p as int].events.contains(e as usize),
            None => v.root_events.contains(e as usize),
        },
{
    let pe = |x: int| v.events[x].parent is None;
    assert(match v.events[e].parent {
        Some(p) => p < v.spans.len(),
        None => true,
    });
    match v.events[e].parent {
        Some(p) => {
            let q = |x: int| v.events[x].parent == Some(p);
            assert(lists_exactly(v.spans[p as int].events, q, v.events.len() as int));
            assert(q(e));
        },
        None => {
            assert(pe(e));
        },
    }
}

/// The ancestors of a span or an event end in a root span, and go back in the capture order.
pub proof fn law_ancestors_end_in_root(v: StorageView, parent: Option<usize>)
    requires
        storage_wf(v),
        match parent {
            Some(p) => p < v.spans.len(),
            None => true,
        },
    ensures
        ancestor_chain(v, parent).len() > 0 ==> {
            let last = ancestor_chain(v, parent).last();
            last < v.spans.len() && v.spans[last as int].parent is None
                && v.root_spans.contains(last)
        },
        forall|a: int, b: int|
            0 <= a < b < ancestor_chain(v, parent).len() ==> #[trigger] ancestor_chain(v, parent)[b]
                < #[trigger] ancestor_chain(v, parent)[a],
    decreases (match parent {
        Some(p) => p + 1,
        None => 0,
    }),
{
    match parent {
        Some(p) => {
            assert(match v.spans[p as int].parent {
                Some(q) => q < p,
                None => true,
            });
            let next = v.spans[p as int].parent;
            law_ancestors_end_in_root(v, next);
            let chain = ancestor_chain(v, parent);
            let rest = ancestor_chain(v, next);
            assert(chain == seq![p] + rest);
            if rest.len() == 0 {
                assert(next is None) by {
                    if next is Some {
                        assert(ancestor_chain(v, next)[0] == next->0);
                    }
                }
                law_span_listed_by_parent(v, p as int);
            }
            if rest.len() > 0 {
                assert(next is Some);
                assert(rest[0] == next->0);
            }
            assert forall|a: int, b: int| 0 <= a < b < chain.len() implies #[trigger] chain[b] < #[trigger] chain[a] by {
                assert(chain[b] == rest[b - 1]);
                if a == 0 {
                    if b - 1 > 0 {
                        assert(rest[b - 1] < rest[0]);
                    }
                } else {
                    assert(chain[a] == rest[a - 1]);
                    assert(rest[b - 1] < rest[a - 1]);
                }
            }
            if rest.len() > 0 {
                assert(chain.last() == rest.last());
            }
        },
        None => {},
    }
}

/// In a valid storage, the ancestors reached from a span are the span followed by the
/// ancestors reached from its parent.
proof fn lemma_chain_unfold(v: StorageView, p: usize)
    requires
        storage_wf(v),
        p < v.spans.len(),
    ensures
        ancestor_chain(v, Some(p)) == seq![p] + ancestor_chain(v, v.spans[p as int].parent),
        match v.spans[p as int].parent {
            Some(q) => q < p,
            None => true,
        },
{
    assert(match v.spans[p as int].parent {
        Some(q) => q < p,
        None => true,
    });
}

/// The ancestors of any span in a chain of ancestors are in that chain too.
proof fn lemma_chain_closed(v: StorageView, parent: Option<usize>, x: usize, y: usize)
    requires
        storage_wf(v),
        match parent {
            Some(p) => p < v.spans.len(),
            None => true,
        },
        ancestor_chain(v, parent).contains(x),
        ancestor_chain(v, v.spans[x as int].parent).contains(y),
    ensures
        ancestor_chain(v, parent).contains(y),
    decreases (match parent {
        Some(p) => p + 1,
        None => 0,
    }),
{
    match parent {
        Some(p) => {
            lemma_chain_unfold(v, p);
            let rest = ancestor_chain(v, v.spans[p as int].parent);
            let chain = ancestor_chain(v, parent);
            if x == p {
                let k = choose|k: int| 0 <= k < rest.len() && rest[k] == y;
                assert(chain[k + 1] == y);
            } else {
                let k = choose|k: int| 0 <= k < chain.len() && chain[k] == x;
                assert(rest[k - 1] == x);
                assert(rest.contains(x));
                lemma_chain_closed(v, v.spans[p as int].parent, x, y);
                let m = choose|m: int| 0 <= m < rest.len() && rest[m] == y;
                assert(chain[m + 1] == y);
            }
        },
        None => {},
    }
}

/// Membership in a depth-first listing: an element is one of the roots or a descendant of one.
proof fn lemma_subtree_list_contains(v: StorageView, roots: Seq<usize>, above: int, x: usize)
    ensures
        subtree_list(v, roots, above).contains(x) <==> exists|k: int|
            0 <= k < roots.len() && (roots[k] == x || (above < roots[k] < v.spans.len()
                && descendants_of(v, roots[k] as int).contains(x))),
    decreases roots.len(),
{
    if roots.len() > 0 {
        let head = roots[0];
        let below = if above < head < v.spans.len() {
            descendants_of(v, head as int)
        } else {
            Seq::empty()
        };
        let tail = subtree_list(v, roots.drop_first(), above);
        lemma_subtree_list_contains(v, roots.drop_first(), above, x);
        let all = subtree_list(v, roots, above);
        assert(all == seq![head] + below + tail);
        if all.contains(x) {
            let m = choose|m: int| 0 <= m < all.len() && all[m] == x;
            if m == 0 {
                assert(roots[0] == x);
            } else if m < 1 + below.len() {
                assert(below[m - 1] == x);
                assert(below.contains(x));
            } else {
                assert(tail[m - 1 - below.len()] == x);
                assert(tail.contains(x));
                let k = choose|k: int|
                    0 <= k < roots.drop_first().len() && (roots.drop_first()[k] == x || (above
                        < roots.drop_first()[k] < v.spans.len() && descendants_of(
                        v,
                        roots.drop_first()[k] as int,
                    ).contains(x)));
                assert(roots[k + 1] == roots.drop_first()[k]);
            }
        }
        if exists|k: int|
            0 <= k < roots.len() && (roots[k] == x || (above < roots[k] < v.spans.len()
                && descendants_of(v, roots[k] as int).contains(x))) {
            let k = choose|k: int|
                0 <= k < roots.len() && (roots[k] == x || (above < roots[k] < v.spans.len()
                    && descendants_of(v, roots[k] as int).contains(x)));
            if k == 0 {
                if roots[0] == x {
                    assert(all[0] == x);
                } else {
                    let m = choose|m: int| 0 <= m < below.len() && below[m] == x;
                    assert(all[m + 1] == x);
                }
            } else {
                assert(roots.drop_first()[k - 1] == roots[k]);
                assert(tail.contains(x));
                let m = choose|m: int| 0 <= m < tail.len() && tail[m] == x;
                assert(all[1 + below.len() + m] == x);
            }
        }
    }
}

/// Membership among the descendants of a span of a valid storage: an element is a child or
/// a descendant of a child.
proof fn lemma_descendants_contains(v: StorageView, i: usize, x: usize)
    requires
        storage_wf(v),
        i < v.spans.len(),
    ensures
        descendants_of(v, i as int).contains(x) <==> exists|k: int|
            0 <= k < v.spans[i as int].children.len() && (v.spans[i as int].children[k] == x
                || descendants_of(v, v.spans[i as int].children[k] as int).contains(x)),
{
    let children = v.spans[i as int].children;
    lemma_subtree_list_contains(v, children, i as int, x);
    assert forall|k: int| 0 <= k < children.len() implies i < #[trigger] children[k] < v.spans.len() by {
        law_children_have_parent(v, i, k);
    }
}

/// Descendants of descendants are descendants.
proof fn lemma_descendants_transitive(v: StorageView, h: usize, x: usize, y: usize)
    requires
        storage_wf(v),
        h < v.spans.len(),
        descendants_of(v, h as int).contains(x),
        descendants_of(v, x as int).contains(y),
    ensures
        descendants_of(v, h as int).contains(y),
    decreases v.spans.len() - h,
{
    lemma_descendants_contains(v, h, x);
    let children = v.spans[h as int].children;
    let k = choose|k: int|
        0 <= k < children.len() && (children[k] == x || descendants_of(v, children[k] as int).contains(
            x,
        ));
    law_children_have_parent(v, h, k);
    let c = children[k];
    if c != x {
        lemma_descendants_transitive(v, c, x, y);
    }
    lemma_descendants_contains(v, h, y);
}

/// The depth-first listing of the descendants of a span holds exactly the captured spans
/// having that span among their ancestors.
pub proof fn law_descendants_are_exactly_the_spans_below(v: StorageView, i: usize, j: usize)
    requires
        storage_wf(v),
        i < v.spans.len(),
    ensures
        descendants_of(v, i as int).contains(j) <==> (j < v.spans.len() && ancestor_chain(
            v,
            v.spans[j as int].parent,
        ).contains(i)),
    decreases j,
{
    lemma_descendants_contains(v, i, j);
    let children = v.spans[i as int].children;
    if descendants_of(v, i as int).contains(j) {
        let k = choose|k: int|
            0 <= k < children.len() && (children[k] == j || descendants_of(v, children[k] as int).contains(
                j,
            ));
        law_children_have_parent(v, i, k);
        let c = children[k];
        if c == j {
            lemma_chain_unfold(v, i);
            assert(ancestor_chain(v, v.spans[j as int].parent)[0] == i);
        } else {
            lemma_descendants_sound(v, c, j);
            lemma_chain_unfold(v, i);
            assert(ancestor_chain(v, v.spans[c as int].parent)[0] == i);
            assert(ancestor_chain(v, v.spans[c as int].parent).contains(i));
            lemma_chain_closed(v, v.spans[j as int].parent, c, i);
        }
    }
    if j < v.spans.len() && ancestor_chain(v, v.spans[j as int].parent).contains(i) {
        let p = v.spans[j as int].parent->0;
        law_span_listed_by_parent(v, j as int);
        lemma_chain_unfold(v, p);
        if p == i {
            let m = choose|m: int| 0 <= m < children.len() && children[m] == j;
        } else {
            let rest = ancestor_chain(v, v.spans[p as int].parent);
            let chain = ancestor_chain(v, v.spans[j as int].parent);
            let m = choose|m: int| 0 <= m < chain.len() && chain[m] == i;
            assert(rest[m - 1] == i);
            assert(rest.contains(i));
            law_descendants_are_exactly_the_spans_below(v, i, p);
            lemma_descendants_contains(v, p, j);
            let pc = v.spans[p as int].children;
            let m2 = choose|m2: int| 0 <= m2 < pc.len() && pc[m2] == j;
            lemma_descendants_transitive(v, i, p, j);
        }
    }
}

/// Every listed descendant of a span is a captured span with that span among its ancestors.
proof fn lemma_descendants_sound(v: StorageView, i: usize, j: usize)
    requires
        storage_wf(v),
        i < v.spans.len(),
        descendants_of(v, i as int).contains(j),
    ensures
        j < v.spans.len(),
        ancestor_chain(v, v.spans[j as int].parent).contains(i),
    decreases v.spans.len() - i,
{
    lemma_descendants_contains(v, i, j);
    let children = v.spans[i as int].children;
    let k = choose|k: int|
        0 <= k < children.len() && (children[k] == j || descendants_of(v, children[k] as int).contains(
            j,
        ));
    law_children_have_parent(v, i, k);
    let c = children[k];
    lemma_chain_unfold(v, i);
    assert(ancestor_chain(v, v.spans[c as int].parent)[0] == i);
    if c != j {
        lemma_descendants_sound(v, c, j);
        assert(ancestor_chain(v, v.spans[c as int].parent).contains(i));
        lemma_chain_closed(v, v.spans[j as int].parent, c, i);
    } else {
        assert(ancestor_chain(v, v.spans[j as int].parent).contains(i));
    }
}

/// A suffix of a chain of ancestors is the chain of ancestors reached from its first span.
proof fn lemma_chain_suffix(v: StorageView, parent: Option<usize>, k: int)
    requires
        storage_wf(v),
        match parent {
            Some(p) => p < v.spans.len(),
            None => true,
        },
        0 <= k < ancestor_chain(v, parent).len(),
    ensures
        ancestor_chain(v, parent)[k] < v.spans.len(),
        ancestor_chain(v, parent).skip(k) == ancestor_chain(v, Some(ancestor_chain(v, parent)[k])),
    decreases (match parent {
        Some(p) => p + 1,
        None => 0,
    }),
{
    let p = parent->0;
    lemma_chain_unfold(v, p);
    let chain = ancestor_chain(v, parent);
    let rest = ancestor_chain(v, v.spans[p as int].parent);
    if k == 0 {
        assert(chain.skip(0) =~= chain);
    } else {
        lemma_chain_suffix(v, v.spans[p as int].parent, k - 1);
        assert(chain[k] == rest[k - 1]);
        assert(chain.skip(k) =~= rest.skip(k - 1));
    }
}

/// Spans in a chain of ancestors reached from `parent` are at most `parent` and distinct.
proof fn lemma_chain_bounded(v: StorageView, p: usize, k: int)
    requires
        storage_wf(v),
        p < v.spans.len(),
        0 <= k < ancestor_chain(v, Some(p)).len(),
    ensures
        ancestor_chain(v, Some(p))[k] <= p,
{
    law_ancestors_end_in_root(v, Some(p));
    lemma_chain_unfold(v, p);
    if k > 0 {
        assert(ancestor_chain(v, Some(p))[k] < ancestor_chain(v, Some(p))[0]);
    }
}

/// Is `x` the span `c` or one of its descendants (by the parent links)?
spec fn in_subtree(v: StorageView, x: usize, c: usize) -> bool {
    x == c || ancestor_chain(v, v.spans[x as int].parent).contains(c)
}

/// Subtrees of two distinct children of a span do not share a span.
proof fn lemma_sibling_subtrees_disjoint(v: StorageView, above: usize, c1: usize, c2: usize, x: usize)
    requires
        storage_wf(v),
        above < v.spans.len(),
        c1 < v.spans.len(),
        c2 < v.spans.len(),
        x < v.spans.len(),
        v.spans[c1 as int].parent == Some(above),
        v.spans[c2 as int].parent == Some(above),
        c1 != c2,
        in_subtree(v, x, c1),
    ensures
        !in_subtree(v, x, c2),
{
    if in_subtree(v, x, c2) {
        assert(above < c1 && above < c2) by {
            assert(match v.spans[c1 as int].parent {
                Some(p) => p < c1,
                None => true,
            });
            assert(match v.spans[c2 as int].parent {
                Some(p) => p < c2,
                None => true,
            });
        }
        if x == c1 {
            let chain = ancestor_chain(v, Some(above));
            let k = choose|k: int| 0 <= k < chain.len() && chain[k] == c2;
            lemma_chain_bounded(v, above, k);
        } else if x == c2 {
            let chain = ancestor_chain(v, Some(above));
            let k = choose|k: int| 0 <= k < chain.len() && chain[k] == c1;
            lemma_chain_bounded(v, above, k);
        } else {
            let parent = v.spans[x as int].parent;
            assert(match parent {
                Some(p) => p < x,
                None => true,
            });
            let chain = ancestor_chain(v, parent);
            let k1 = choose|k: int| 0 <= k < chain.len() && chain[k] == c1;
            let k2 = choose|k: int| 0 <= k < chain.len() && chain[k] == c2;
            lemma_chain_suffix(v, parent, k1);
            lemma_chain_suffix(v, parent, k2);
            lemma_chain_unfold(v, c1);
            lemma_chain_unfold(v, c2);
            lemma_chain_unfold(v, above);
            assert(chain.skip(k1).len() >= 2);
            assert(chain.skip(k2).len() >= 2);
            assert(chain.skip(k1)[1] == chain[k1 + 1]);
            assert(chain.skip(k2)[1] == chain[k2 + 1]);
            assert(chain.skip(k1)[1] == above);
            assert(chain.skip(k2)[1] == above);
            assert(chain[k1 + 1] == above && chain[k2 + 1] == above);
            law_ancestors_end_in_root(v, parent);
            if k1 < k2 {
                assert(chain[k2 + 1] < chain[k1 + 1]);
            } else if k2 < k1 {
                assert(chain[k1 + 1] < chain[k2 + 1]);
            }
        }
    }
}

/// A depth-first listing of the subtrees of increasing children of a span lists no span twice.
proof fn lemma_subtree_list_no_duplicates(v: StorageView, roots: Seq<usize>, above: usize)
    requires
        storage_wf(v),
        above < v.spans.len(),
        forall|k: int| 0 <= k < roots.len() ==> #[trigger] roots[k] < v.spans.len() && v.spans[roots[k] as int].parent == Some(above),
        forall|a: int, b: int| 0 <= a < b < roots.len() ==> roots[a] < roots[b],
    ensures
        subtree_list(v, roots, above as int).no_duplicates(),
    decreases v.spans.len() - above, roots.len(),
{
    if roots.len() > 0 {
        let head = roots[0];
        assert(roots[0] < v.spans.len() && v.spans[head as int].parent == Some(above));
        assert(above < head) by {
            assert(match v.spans[head as int].parent {
                Some(p) => p < head,
                None => true,
            });
        }
        let children = v.spans[head as int].children;
        assert(lists_exactly(children, |j: int| v.spans[j].parent == Some(head), v.spans.len() as int));
        assert forall|k: int| 0 <= k < children.len() implies #[trigger] children[k] < v.spans.len()
            && v.spans[children[k] as int].parent == Some(head) by {
            law_children_have_parent(v, head, k);
        }
        lemma_subtree_list_no_duplicates(v, children, head);
        let below = descendants_of(v, head as int);
        assert(below == subtree_list(v, children, head as int));
        let tail_roots = roots.drop_first();
        lemma_subtree_list_no_duplicates(v, tail_roots, above);
        let tail = subtree_list(v, tail_roots, above as int);
        let all = subtree_list(v, roots, above as int);
        assert(all == seq![head] + below + tail);
        // Spans of the head subtree.
        assert forall|m: int| 0 <= m < below.len() implies #[trigger] below[m] > head && in_subtree(
            v,
            below[m],
            head,
        ) by {
            assert(below.contains(below[m]));
            law_descendants_are_exactly_the_spans_below(v, head, below[m]);
            let x = below[m];
            let chain = ancestor_chain(v, v.spans[x as int].parent);
            let k = choose|k: int| 0 <= k < chain.len() && chain[k] == head;
            assert(match v.spans[x as int].parent {
                Some(p) => p < x,
                None => true,
            });
            lemma_chain_bounded(v, v.spans[x as int].parent->0, k);
        }
        // Spans of the other subtrees.
        assert forall|m: int| 0 <= m < tail.len() implies exists|k: int|
            0 <= k < tail_roots.len() && in_subtree(v, #[trigger] tail[m], tail_roots[k]) by {
            assert(tail.contains(tail[m]));
            lemma_subtree_list_contains(v, tail_roots, above as int, tail[m]);
            let k = choose|k: int|
                0 <= k < tail_roots.len() && (tail_roots[k] == tail[m] || (above < tail_roots[k]
                    < v.spans.len() && descendants_of(v, tail_roots[k] as int).contains(tail[m])));
            if tail_roots[k] != tail[m] {
                law_descendants_are_exactly_the_spans_below(v, tail_roots[k], tail[m]);
            }
        }
        assert forall|a: int, b: int| 0 <= a < b < all.len() implies all[a] != all[b] by {
            if a == 0 {
                if b < 1 + below.len() {
                    assert(below[b - 1] > head);
                } else {
                    let t = tail[b - 1 - below.len()];
                    let k = choose|k: int| 0 <= k < tail_roots.len() && in_subtree(v, t, tail_roots[k]);
                    assert(tail_roots[k] == roots[k + 1]);
                    assert(roots[0] < roots[k + 1]);
                    if t == head {
                        assert(in_subtree(v, t, head));
                        assert(t < v.spans.len()) by {
                            assert(roots[0] < v.spans.len());
                        }
                        assert(roots[k + 1] < v.spans.len() && v.spans[roots[k + 1] as int].parent == Some(above));
                        lemma_sibling_subtrees_disjoint(v, above, head, tail_roots[k], t);
                    }
                }
            } else if a < 1 + below.len() {
                if b < 1 + below.len() {
                    assert(below[a - 1] != below[b - 1]);
                } else {
                    let x = below[a - 1];
                    let t = tail[b - 1 - below.len()];
                    if x == t {
                        let k = choose|k: int| 0 <= k < tail_roots.len() && in_subtree(v, t, tail_roots[k]);
                        assert(tail_roots[k] == roots[k + 1]);
                        assert(roots[0] < roots[k + 1]);
                        assert(roots[k + 1] < v.spans.len() && v.spans[roots[k + 1] as int].parent == Some(above));
                        assert(in_subtree(v, x, head));
                        assert(x < v.spans.len()) by {
                            law_descendants_are_exactly_the_spans_below(v, head, x);
                        }
                        lemma_sibling_subtrees_disjoint(v, above, head, tail_roots[k], x);
                    }
                }
            } else {
                assert(tail[a - 1 - below.len()] != tail[b - 1 - below.len()]);
            }
        }
    }
}

/// The depth-first listing of the descendants of a span lists each of them once.
pub proof fn law_descendants_are_listed_once(v: StorageView, i: usize)
    requires
        storage_wf(v),
        i < v.spans.len(),
    ensures
        descendants_of(v, i as int).no_duplicates(),
{
    let children = v.spans[i as int].children;
    assert(lists_exactly(children, |j: int| v.spans[j].parent == Some(i), v.spans.len() as int));
    assert forall|k: int| 0 <= k < children.len() implies #[trigger] children[k] < v.spans.len()
        && v.spans[children[k] as int].parent == Some(i) by {
        law_children_have_parent(v, i, k);
    }
    lemma_subtree_list_no_duplicates(v, children, i);
}

/// Spans were captured in a nested way (as happens when spans are not re-entered and their
/// parents are contextual): every span captured between a span and one of its children is a
/// descendant of that span.
pub open spec fn nested(v: StorageView) -> bool {
    forall|j: int, k: int|
        0 <= j < v.spans.len() && #[trigger] v.spans[j].parent is Some && v.spans[j].parent->0 < k
            < j ==> #[trigger] ancestor_chain(v, v.spans[k].parent).contains(v.spans[j].parent->0)
}

/// Being in a subtree is transitive.
proof fn lemma_in_subtree_transitive(v: StorageView, x: usize, a: usize, b: usize)
    requires
        storage_wf(v),
        x < v.spans.len(),
        a < v.spans.len(),
        in_subtree(v, x, a),
        in_subtree(v, a, b),
    ensures
        in_subtree(v, x, b),
{
    if x != a && a != b {
        assert(match v.spans[x as int].parent {
            Some(p) => p < x,
            None => true,
        });
        lemma_chain_closed(v, v.spans[x as int].parent, a, b);
    }
}

/// In nested storages, subtrees occupy contiguous ranges of the capture order: every span
/// captured between a span and one of its descendants is a descendant of the span too.
proof fn lemma_subtree_contiguous(v: StorageView, h: usize, x: usize, c: usize)
    requires
        storage_wf(v),
        nested(v),
        x < v.spans.len(),
        in_subtree(v, x, h),
        h < c < x,
    ensures
        in_subtree(v, c, h),
    decreases x,
{
    assert(match v.spans[x as int].parent {
        Some(q) => q < x,
        None => true,
    });
    let p = v.spans[x as int].parent->0;
    lemma_chain_unfold(v, p);
    if p == h {
        assert(v.spans[x as int].parent is Some);
        assert(ancestor_chain(v, v.spans[c as int].parent).contains(h));
    } else {
        let chain = ancestor_chain(v, v.spans[x as int].parent);
        let k = choose|k: int| 0 <= k < chain.len() && chain[k] == h;
        assert(k > 0);
        assert(ancestor_chain(v, v.spans[p as int].parent)[k - 1] == h);
        assert(in_subtree(v, p, h));
        assert(h < p) by {
            let rest = ancestor_chain(v, v.spans[p as int].parent);
            assert(rest.contains(h));
            assert(match v.spans[p as int].parent {
                Some(q) => q < p,
                None => true,
            });
            lemma_chain_bounded(v, v.spans[p as int].parent->0, k - 1);
        }
        if c < p {
            lemma_subtree_contiguous(v, h, p, c);
        } else if c > p {
            assert(v.spans[x as int].parent is Some);
            assert(ancestor_chain(v, v.spans[c as int].parent).contains(p));
            lemma_in_subtree_transitive(v, c, p, h);
        }
    }
}

/// In nested storages, a depth-first listing of the subtrees of increasing children of a span
/// is increasing.
proof fn lemma_subtree_list_sorted(v: StorageView, roots: Seq<usize>, above: usize)
    requires
        storage_wf(v),
        nested(v),
        above < v.spans.len(),
        forall|k: int| 0 <= k < roots.len() ==> #[trigger] roots[k] < v.spans.len() && v.spans[roots[k] as int].parent == Some(above),
        forall|a: int, b: int| 0 <= a < b < roots.len() ==> roots[a] < roots[b],
    ensures
        forall|a: int, b: int|
            0 <= a < b < subtree_list(v, roots, above as int).len() ==> subtree_list(v, roots, above as int)[a]
                < subtree_list(v, roots, above as int)[b],
    decreases v.spans.len() - above, roots.len(),
{
    if roots.len() > 0 {
        let head = roots[0];
        assert(roots[0] < v.spans.len() && v.spans[head as int].parent == Some(above));
        assert(above < head) by {
            assert(match v.spans[head as int].parent {
                Some(p) => p < head,
                None => true,
            });
        }
        let children = v.spans[head as int].children;
        assert(lists_exactly(children, |j: int| v.spans[j].parent == Some(head), v.spans.len() as int));
        assert forall|k: int| 0 <= k < children.len() implies #[trigger] children[k] < v.spans.len()
            && v.spans[children[k] as int].parent == Some(head) by {
            law_children_have_parent(v, head, k);
        }
        lemma_subtree_list_sorted(v, children, head);
        let below = descendants_of(v, head as int);
        assert(below == subtree_list(v, children, head as int));
        let tail_roots = roots.drop_first();
        lemma_subtree_list_sorted(v, tail_roots, above);
        let tail = subtree_list(v, tail_roots, above as int);
        let all = subtree_list(v, roots, above as int);
        assert(all == seq![head] + below + tail);
        assert forall|m: int| 0 <= m < below.len() implies #[trigger] below[m] > head && below[m]
            < v.spans.len() && in_subtree(v, below[m], head) by {
            assert(below.contains(below[m]));
            law_descendants_are_exactly_the_spans_below(v, head, below[m]);
            let x = below[m];
            let chain = ancestor_chain(v, v.spans[x as int].parent);
            let k = choose|k: int| 0 <= k < chain.len() && chain[k] == head;
            assert(match v.spans[x as int].parent {
                Some(p) => p < x,
                None => true,
            });
            lemma_chain_bounded(v, v.spans[x as int].parent->0, k);
        }
        assert forall|m: int| 0 <= m < tail.len() implies exists|k: int|
            0 <= k < tail_roots.len() && in_subtree(v, #[trigger] tail[m], tail_roots[k])
                && tail_roots[k] <= tail[m] by {
            assert(tail.contains(tail[m]));
            lemma_subtree_list_contains(v, tail_roots, above as int, tail[m]);
            let k = choose|k: int|
                0 <= k < tail_roots.len() && (tail_roots[k] == tail[m] || (above < tail_roots[k]
                    < v.spans.len() && descendants_of(v, tail_roots[k] as int).contains(tail[m])));
            if tail_roots[k] != tail[m] {
                law_descendants_are_exactly_the_spans_below(v, tail_roots[k], tail[m]);
                let x = tail[m];
                let chain = ancestor_chain(v, v.spans[x as int].parent);
                let j = choose|j: int| 0 <= j < chain.len() && chain[j] == tail_roots[k];
                assert(match v.spans[x as int].parent {
                    Some(p) => p < x,
                    None => true,
                });
                lemma_chain_bounded(v, v.spans[x as int].parent->0, j);
            }
        }
        assert forall|a: int, b: int| 0 <= a < b < all.len() implies all[a] < all[b] by {
            if b >= 1 + below.len() {
                let t = tail[b - 1 - below.len()];
                let k = choose|k: int|
                    0 <= k < tail_roots.len() && in_subtree(v, t, tail_roots[k]) && tail_roots[k] <= t;
                let c = tail_roots[k];
                assert(c == roots[k + 1]);
                assert(head < c);
                assert(c < v.spans.len() && v.spans[c as int].parent == Some(above));
                if a == 0 {
                } else if a < 1 + below.len() {
                    let x = below[a - 1];
                    if t == x {
                        lemma_sibling_subtrees_disjoint(v, above, head, c, x);
                    } else if t < x {
                        assert(c < x);
                        lemma_subtree_contiguous(v, head, x, c);
                        lemma_chain_unfold(v, above);
                        let chain = ancestor_chain(v, Some(above));
                        let j = choose|j: int| 0 <= j < chain.len() && chain[j] == head;
                        lemma_chain_bounded(v, above, j);
                    }
                } else {
                    assert(tail[a - 1 - below.len()] < tail[b - 1 - below.len()]);
                }
            } else if a > 0 {
                assert(below[a - 1] < below[b - 1]);
            }
        }
    }
}

/// In nested storages (spans are not re-entered and their parents are contextual), the
/// descendants of a span are listed in the order of their capture.
pub proof fn law_descendants_in_capture_order(v: StorageView, i: usize)
    requires
        storage_wf(v),
        nested(v),
        i < v.spans.len(),
    ensures
        forall|a: int, b: int|
            0 <= a < b < descendants_of(v, i as int).len() ==> descendants_of(v, i as int)[a]
                < descendants_of(v, i as int)[b],
{
    let children = v.spans[i as int].children;
    assert(lists_exactly(children, |j: int| v.spans[j].parent == Some(i), v.spans.len() as int));
    assert forall|k: int| 0 <= k < children.len() implies #[trigger] children[k] < v.spans.len()
        && v.spans[children[k] as int].parent == Some(i) by {
        law_children_have_parent(v, i, k);
    }
    lemma_subtree_list_sorted(v, children, i);
    assert(descendants_of(v, i as int) == subtree_list(v, children, i as int));
}

} // verus!
