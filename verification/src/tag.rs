//! Tag listings.
//!
//! A tag binds a name to a commit; annotated tags carry a message.  A
//! standalone listing is exposed sorted alphabetically by name, which
//! `sort_tags` performs and whose order and contents are proved.

use vstd::prelude::*;
use vstd::multiset::Multiset;
use vstd::seq_lib::group_to_multiset_ensures;
use crate::text::{lemma_lex_le_total, lemma_lex_le_trans, lex_le, str_le};

verus! {

/// Tag information.
#[derive(Clone, Debug)]
pub struct TagInfo {
    pub name: String,
    /// The commit the tag points at; for an annotated tag, the annotated
    /// commit.
    pub sha: String,
    pub message: Option<String>,
    pub is_annotated: bool,
}

/// Mathematical image of a tag.
pub ghost struct TagView {
    pub name: Seq<char>,
    pub sha: Seq<char>,
    pub message: Option<Seq<char>>,
    pub is_annotated: bool,
}

impl View for TagInfo {
    type V = TagView;

    open spec fn view(&self) -> TagView {
        TagView {
            name: self.name@,
            sha: self.sha@,
            message: match self.message {
                Some(m) => Some(m@),
                None => None,
            },
            is_annotated: self.is_annotated,
        }
    }
}

/// The views of a sequence of tags.
pub open spec fn tag_views(s: Seq<TagInfo>) -> Seq<TagView> {
    s.map_values(|t: TagInfo| t@)
}

/// Alphabetical order on tags, by name.
pub open spec fn tag_le(a: TagView, b: TagView) -> bool {
    lex_le(a.name, b.name)
}

/// `a` sorts strictly before `b`.
pub open spec fn tag_strictly_before(a: TagView, b: TagView) -> bool {
    tag_le(a, b) && !tag_le(b, a)
}

/// Stable insertion of `x` into a sorted run: `x` lands after everything it
/// does not sort strictly before.
pub open spec fn tag_insert(x: TagView, s: Seq<TagView>) -> Seq<TagView>
    decreases s.len(),
{
    if s.len() == 0 {
        seq![x]
    } else if tag_strictly_before(x, s[0]) {
        seq![x] + s
    } else {
        seq![s[0]] + tag_insert(x, s.drop_first())
    }
}

/// Stable sort of a tag listing by name.
pub open spec fn spec_sort_tags(s: Seq<TagView>) -> Seq<TagView>
    decreases s.len(),
{
    if s.len() == 0 {
        Seq::empty()
    } else {
        tag_insert(s.last(), spec_sort_tags(s.drop_last()))
    }
}

/// The run is sorted: every element is in order with every later one.
pub open spec fn tags_sorted(s: Seq<TagView>) -> bool {
    forall|i: int, j: int| 0 <= i < j < s.len() ==> tag_le(#[trigger] s[i], #[trigger] s[j])
}

proof fn lemma_tag_insert_at(x: TagView, s: Seq<TagView>, pos: int)
    requires
        0 <= pos <= s.len(),
        forall|l: int| 0 <= l < pos ==> !tag_strictly_before(x, #[trigger] s[l]),
        pos == s.len() || tag_strictly_before(x, s[pos]),
    ensures
        tag_insert(x, s) == s.insert(pos, x),
    decreases s.len(),
{
    if s.len() == 0 {
        assert(tag_insert(x, s) =~= s.insert(0, x));
    } else if pos == 0 {
        assert(tag_insert(x, s) =~= s.insert(0, x));
    } else {
        lemma_tag_insert_at(x, s.drop_first(), pos - 1);
        assert(tag_insert(x, s) =~= s.insert(pos, x));
    }
}

proof fn lemma_tag_insert_sorted(x: TagView, s: Seq<TagView>)
    requires
        tags_sorted(s),
    ensures
        tags_sorted(tag_insert(x, s)),
        tag_insert(x, s).to_multiset() == s.to_multiset().insert(x),
        tag_insert(x, s).len() == s.len() + 1,
    decreases s.len(),
{
    broadcast use group_to_multiset_ensures;

    if s.len() == 0 {
        assert(tag_insert(x, s) =~= Seq::<TagView>::empty().push(x));
        assert(tag_insert(x, s).to_multiset() =~= s.to_multiset().insert(x));
    } else if tag_strictly_before(x, s[0]) {
        let out = seq![x] + s;
        assert forall|i: int, j: int| 0 <= i < j < out.len() implies tag_le(
            #[trigger] out[i],
            #[trigger] out[j],
        ) by {
            if i == 0 && j > 1 {
                assert(out[j] == s[j - 1]);
                lemma_lex_le_trans(x.name, s[0].name, s[j - 1].name);
            }
        }
        assert(out =~= s.insert(0, x));
        assert(out.to_multiset() =~= s.to_multiset().insert(x));
    } else {
        lemma_tag_insert_sorted(x, s.drop_first());
        let rest = tag_insert(x, s.drop_first());
        let out = seq![s[0]] + rest;
        assert(out =~= tag_insert(x, s));
        lemma_lex_le_total(x.name, s[0].name);
        assert(tag_le(s[0], x));
        assert forall|i: int, j: int| 0 <= i < j < out.len() implies tag_le(
            #[trigger] out[i],
            #[trigger] out[j],
        ) by {
            if i == 0 {
                // rest holds the old tail elements and x, all at or after s[0].
                assert(rest.to_multiset().contains(out[j]));
                assert(rest.to_multiset().count(out[j]) > 0);
                if out[j] == x {
                } else {
                    assert(s.drop_first().to_multiset().contains(out[j]));
                    let w = choose|w: int|
                        0 <= w < s.drop_first().len() && s.drop_first()[w] == out[j];
                    assert(tag_le(s[0], s[w + 1]));
                }
            }
        }
        vstd::seq_lib::lemma_multiset_commutative(seq![s[0]], rest);
        assert(s =~= seq![s[0]] + s.drop_first());
        vstd::seq_lib::lemma_multiset_commutative(seq![s[0]], s.drop_first());
        assert(seq![s[0]].to_multiset() =~= Multiset::<TagView>::empty().insert(s[0]));
        assert(out.to_multiset() =~= s.to_multiset().insert(x));
    }
}

/// The sorted listing is sorted and holds exactly the original tags.
pub proof fn lemma_sort_tags_ensures(s: Seq<TagView>)
    ensures
        tags_sorted(spec_sort_tags(s)),
        spec_sort_tags(s).to_multiset() == s.to_multiset(),
        spec_sort_tags(s).len() == s.len(),
    decreases s.len(),
{
    broadcast use group_to_multiset_ensures;

    if s.len() > 0 {
        lemma_sort_tags_ensures(s.drop_last());
        lemma_tag_insert_sorted(s.last(), spec_sort_tags(s.drop_last()));
        assert(s =~= s.drop_last().push(s.last()));
        assert(s.drop_last().push(s.last()).to_multiset() =~= s.drop_last().to_multiset().insert(
            s.last(),
        ));
    }
}

/// Position at which `x` lands in the sorted run `out`: after everything it
/// does not sort strictly before.
fn find_tag_pos(out: &Vec<TagInfo>, x: &TagInfo) -> (pos: usize)
    ensures
        pos <= out@.len(),
        forall|l: int| 0 <= l < pos ==> !tag_strictly_before(x@, #[trigger] tag_views(out@)[l]),
        pos == out@.len() || tag_strictly_before(x@, tag_views(out@)[pos as int]),
{
    let mut pos: usize = 0;
    while pos < out.len()
        invariant
            pos <= out@.len(),
            forall|l: int| 0 <= l < pos ==> !tag_strictly_before(x@, #[trigger] tag_views(out@)[l]),
        decreases out@.len() - pos,
    {
        let le_xy = str_le(x.name.as_str(), out[pos].name.as_str());
        let le_yx = str_le(out[pos].name.as_str(), x.name.as_str());
        if le_xy && !le_yx {
            proof {
                assert(tag_strictly_before(x@, tag_views(out@)[pos as int]));
            }
            return pos;
        }
        proof {
            assert(!tag_strictly_before(x@, tag_views(out@)[pos as int]));
        }
        pos = pos + 1;
    }
    pos
}

/// Sorts a tag listing alphabetically by name, keeping equal names in their
/// original order.
pub fn sort_tags(tags: Vec<TagInfo>) -> (r: Vec<TagInfo>)
    ensures
        tag_views(r@) == spec_sort_tags(tag_views(tags@)),
{
    let ghost orig = tag_views(tags@);
    let mut tags = tags;
    let total = tags.len();
    let mut out: Vec<TagInfo> = Vec::new();
    let mut i: usize = 0;
    proof {
        assert(orig.subrange(0, 0) =~= Seq::<TagView>::empty());
    }
    while tags.len() > 0
        invariant
            total == orig.len(),
            i + tags@.len() == orig.len(),
            tag_views(tags@) == orig.subrange(i as int, orig.len() as int),
            tag_views(out@) == spec_sort_tags(orig.subrange(0, i as int)),
        decreases tags@.len(),
    {
        let ghost pre_exec = tags@;
        let x = tags.remove(0);
        proof {
            assert(tag_views(pre_exec)[0] == orig[i as int]);
            assert(x@ == orig[i as int]);
            assert forall|l: int|
                0 <= l < tags@.len() implies tag_views(tags@)[l] == orig.subrange(
                i + 1,
                orig.len() as int,
            )[l] by {
                assert(tags@[l] == pre_exec[l + 1]);
                assert(tag_views(pre_exec)[l + 1] == pre_exec[l + 1]@);
            }
            assert(tag_views(tags@) =~= orig.subrange(i + 1, orig.len() as int));
        }
        let ghost sorted = tag_views(out@);
        let pos = find_tag_pos(&out, &x);
        proof {
            lemma_tag_insert_at(x@, sorted, pos as int);
        }
        let ghost xv = x@;
        out.insert(pos, x);
        proof {
            assert(tag_views(out@) =~= sorted.insert(pos as int, xv));
            assert(orig.subrange(0, i + 1).drop_last() =~= orig.subrange(0, i as int));
            assert(orig.subrange(0, i + 1).last() == orig[i as int]);
        }
        i = i + 1;
    }
    proof {
        assert(orig.subrange(0, orig.len() as int) =~= orig);
    }
    out
}

} // verus!
