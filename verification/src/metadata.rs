//! The collected tags.
use crate::text::string_of;
use crate::value::{Value, ValueModel};
use vstd::prelude::*;

verus! {

/// One tag read from a file.
#[derive(Clone, Debug)]
pub struct TagRecord {
    pub group: String,
    pub name: String,
    /// TIFF/EXIF tag id when known (used for PrintConv lookup).
    pub tag_id: Option<u16>,
    pub value: Value,
}

/// What a `TagRecord` holds.
pub struct TagModel {
    pub group: Seq<char>,
    pub name: Seq<char>,
    pub tag_id: Option<u16>,
    pub value: ValueModel,
}

impl View for TagRecord {
    type V = TagModel;

    open spec fn view(&self) -> TagModel {
        TagModel { group: self.group@, name: self.name@, tag_id: self.tag_id, value: self.value@ }
    }
}

/// A tag without a TIFF id.
pub open spec fn tag(group: Seq<char>, name: Seq<char>, value: ValueModel) -> TagModel {
    TagModel { group, name, tag_id: None, value }
}

/// A tag with its TIFF id.
pub open spec fn tag_id(group: Seq<char>, name: Seq<char>, id: u16, value: ValueModel) -> TagModel {
    TagModel { group, name, tag_id: Some(id), value }
}

/// The tags read from a file, in the order they were found.
#[derive(Clone, Debug)]
pub struct Metadata {
    pub tags: Vec<TagRecord>,
}

impl View for Metadata {
    type V = Seq<TagModel>;

    open spec fn view(&self) -> Seq<TagModel> {
        self.tags@.map_values(|t: TagRecord| t@)
    }
}

impl Default for Metadata {
    fn default() -> (r: Self)
        ensures
            r@ == Seq::<TagModel>::empty(),
    {
        let m = Metadata { tags: Vec::new() };
        assert(m@ =~= Seq::<TagModel>::empty());
        m
    }
}

impl Metadata {
    /// Appends a tag without a TIFF id.
    pub fn push(&mut self, group: &str, name: &str, value: Value)
        ensures
            final(self)@ == old(self)@.push(tag(group@, name@, value@)),
    {
        let r = TagRecord { group: string_of(group), name: string_of(name), tag_id: None, value };
        self.tags.push(r);
        assert(final(self)@ =~= old(self)@.push(tag(group@, name@, value@)));
    }

    /// Appends a tag with its TIFF id.
    pub fn push_id(&mut self, group: &str, name: &str, tag_id: u16, value: Value)
        ensures
            final(self)@ == old(self)@.push(crate::metadata::tag_id(group@, name@, tag_id, value@)),
    {
        let r = TagRecord {
            group: string_of(group),
            name: string_of(name),
            tag_id: Some(tag_id),
            value,
        };
        self.tags.push(r);
        assert(final(self)@ =~= old(self)@.push(crate::metadata::tag_id(group@, name@, tag_id, value@)));
    }
}

} // verus!

verus! {

/// The values of the tags in `ts` named `n`, in order.
pub open spec fn values_named(ts: Seq<TagModel>, n: Seq<char>) -> Seq<ValueModel>
    decreases ts.len(),
{
    if ts.len() == 0 {
        seq![]
    } else {
        (if ts[0].name == n { seq![ts[0].value] } else { seq![] }) + values_named(ts.drop_first(), n)
    }
}

/// The named values of two runs of tags are those of the first followed by the second's.
pub proof fn lemma_values_named_concat(a: Seq<TagModel>, b: Seq<TagModel>, n: Seq<char>)
    ensures
        values_named(a + b, n) == values_named(a, n) + values_named(b, n),
    decreases a.len(),
{
    if a.len() == 0 {
        assert(a + b =~= b);
    } else {
        lemma_values_named_concat(a.drop_first(), b, n);
        assert((a + b).drop_first() =~= a.drop_first() + b);
    }
}

} // verus!
