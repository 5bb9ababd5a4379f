use crate::tag::{BerTag, TagModel};
use vstd::prelude::*;

verus! {

/// One element of a decoded tree: its tag, the length and the octets of its
/// value, where it starts in the input, and the elements nested in it.
///
/// Each node owns its value and its children. Nothing in this crate builds
/// such a tree; the type is here for code that walks a whole encoding.
#[derive(Debug)]
pub struct TlvObject {
    pub tag: BerTag,
    pub length: u32,
    pub value: Vec<u8>,
    pub offset: u32,
    pub children: Vec<TlvObject>,
}

/// What a `TlvObject` stands for: the node and, in order, its whole subtree.
pub struct TlvModel {
    pub tag: TagModel,
    pub length: u32,
    pub value: Seq<u8>,
    pub offset: u32,
    pub children: Seq<TlvModel>,
}

/// The model of a node: its own fields and, in order, the models of the
/// nodes nested in it.
pub open spec fn tlv_model(node: TlvObject) -> TlvModel
    decreases node,
{
    TlvModel {
        tag: node.tag@,
        length: node.length,
        value: node.value@,
        offset: node.offset,
        children: Seq::new(
            node.children@.len(),
            |i: int|
                if 0 <= i < node.children@.len() {
                    tlv_model(node.children@[i])
                } else {
                    arbitrary()
                },
        ),
    }
}

impl View for TlvObject {
    type V = TlvModel;

    open spec fn view(&self) -> TlvModel {
        tlv_model(*self)
    }
}

impl Clone for TlvObject {
    /// A deep copy: the node and, in order, a copy of each nested element.
    fn clone(&self) -> (copy: Self)
        ensures
            copy@ == self@,
        decreases self,
    {
        let mut children: Vec<TlvObject> = Vec::new();
        let mut i: usize = 0;
        while i < self.children.len()
            invariant
                i <= self.children.len(),
                children@.len() == i,
                forall|j: int| 0 <= j < i ==> (#[trigger] children@[j])@ == self.children@[j]@,
            decreases self.children.len() - i,
        {
            children.push(self.children[i].clone());
            i += 1;
        }
        let copy = TlvObject {
            tag: self.tag.clone(),
            length: self.length,
            value: self.value.clone(),
            offset: self.offset,
            children,
        };
        assert(copy@.children =~= self@.children);
        copy
    }
}

} // verus!
