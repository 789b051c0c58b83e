//! Appending a text block to a model request's system message (memory and
//! role injection): the request's messages as the logic reads them, and the
//! edit to make.
use vstd::prelude::*;

verus! {

/// A message's `content` as the injection sees it.
#[derive(Debug, Clone, PartialEq, Eq)]
pub enum ContentShape {
    /// No `content` field.
    Missing,
    /// A string.
    Text(String),
    /// Some other JSON value.
    Other,
}

/// One message of the request: whether its role is `system`, and its content.
#[derive(Debug, Clone, PartialEq, Eq)]
pub struct PayloadMessage {
    pub is_system: bool,
    pub content: ContentShape,
}

/// The edit to the messages.
#[derive(Debug, Clone, PartialEq, Eq)]
pub enum Injection {
    /// Leave the request as it is.
    Unchanged,
    /// Replace message `index`'s content with this text.
    Replace(usize, String),
    /// Insert a system message with this content at the front.
    InsertFront(String),
}

/// Index of the first system message.
pub open spec fn first_system(ms: Seq<PayloadMessage>) -> Option<int>
    decreases ms.len(),
{
    if ms.len() == 0 {
        None
    } else if ms[0].is_system {
        Some(0)
    } else {
        match first_system(ms.skip(1)) {
            Some(i) => Some(i + 1),
            None => None,
        }
    }
}

proof fn lemma_first_system(ms: Seq<PayloadMessage>)
    ensures
        first_system(ms) matches Some(i) ==> 0 <= i < ms.len() && ms[i].is_system
            && forall|j: int| 0 <= j < i ==> !(#[trigger] ms[j]).is_system,
        first_system(ms) is None ==> forall|j: int| 0 <= j < ms.len() ==> !(#[trigger] ms[j]).is_system,
    decreases ms.len(),
{
    if ms.len() > 0 && !ms[0].is_system {
        lemma_first_system(ms.skip(1));
        assert forall|j: int| 1 <= j < ms.len() implies ms[j] == ms.skip(1)[j - 1] by {}
    }
}

fn find_system(ms: &Vec<PayloadMessage>) -> (r: Option<usize>)
    ensures
        match r {
            Some(k) => first_system(ms@) == Some(k as int),
            None => first_system(ms@) is None,
        },
{
    proof { lemma_first_system(ms@); }
    let mut k: usize = 0;
    while k < ms.len()
        invariant
            k <= ms@.len(),
            forall|j: int| 0 <= j < k ==> !(#[trigger] ms@[j]).is_system,
            first_system(ms@) matches Some(i) ==> 0 <= i < ms@.len() && ms@[i].is_system
                && forall|j: int| 0 <= j < i ==> !(#[trigger] ms@[j]).is_system,
            first_system(ms@) is None ==> forall|j: int| 0 <= j < ms@.len() ==> !(#[trigger] ms@[j]).is_system,
        decreases ms@.len() - k,
    {
        if ms[k].is_system {
            return Some(k);
        }
        k += 1;
    }
    None
}

fn concat(a: &String, b: &str) -> (r: String)
    ensures
        r@ == a@ + b@,
{
    let mut s = String::new();
    crate::text::push_str_chars(&mut s, a.as_str());
    crate::text::push_str_chars(&mut s, b);
    s
}

/// `r` appends `block` to the first system message when its content is
/// text, and otherwise inserts `block` as a new first system message.
pub open spec fn appends_or_inserts(ms: Seq<PayloadMessage>, block: Seq<char>, r: Injection) -> bool {
    match first_system(ms) {
        Some(i) => match ms[i].content {
            ContentShape::Text(s) => r matches Injection::Replace(k, t) && k == i && t@ == s@ + block,
            _ => r matches Injection::InsertFront(t) && t@ == block,
        },
        None => r matches Injection::InsertFront(t) && t@ == block,
    }
}

/// `r` is the memory edit of `block`: nothing for an empty block; appended to
/// the first system message when its content is text (nothing when it is
/// not); a new first system message when there is none.
pub open spec fn memory_edit(ms: Seq<PayloadMessage>, block: Seq<char>, r: Injection) -> bool {
    &&& block.len() == 0 ==> r is Unchanged
    &&& block.len() > 0 ==> match first_system(ms) {
        Some(i) => match ms[i].content {
            ContentShape::Text(s) => r matches Injection::Replace(k, t) && k == i && t@ == s@ + block,
            _ => r is Unchanged,
        },
        None => r matches Injection::InsertFront(t) && t@ == block,
    }
}

/// The role edit: append `block` to the first system message when its
/// content is text, otherwise insert `block` as a new first system message.
pub fn plan_append_or_insert(ms: &Vec<PayloadMessage>, block: &str) -> (r: Injection)
    ensures
        appends_or_inserts(ms@, block@, r),
{
    proof { lemma_first_system(ms@); }
    match find_system(ms) {
        Some(i) => match &ms[i].content {
            ContentShape::Text(s) => Injection::Replace(i, concat(s, block)),
            _ => Injection::InsertFront(block.to_owned()),
        },
        None => Injection::InsertFront(block.to_owned()),
    }
}

/// The memory edit: nothing for an empty block; append to the first system
/// message when its content is text (nothing when it is not); insert a new
/// first system message when there is none.
pub fn plan_memory_injection(ms: &Vec<PayloadMessage>, block: &str) -> (r: Injection)
    requires
        block@.len() > 0 ==> (first_system(ms@) matches Some(i) ==> !(ms@[i].content is Missing)),
    ensures
        memory_edit(ms@, block@, r),
{
    if block.is_empty() {
        return Injection::Unchanged;
    }
    proof { lemma_first_system(ms@); }
    match find_system(ms) {
        Some(i) => match &ms[i].content {
            ContentShape::Text(s) => Injection::Replace(i, concat(s, block)),
            _ => Injection::Unchanged,
        },
        None => Injection::InsertFront(block.to_owned()),
    }
}

} // verus!
