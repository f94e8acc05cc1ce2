use vstd::prelude::*;
use vstd::string::*;

verus! {

/// A DOM change sent to the page's JavaScript side, addressed by element id.
#[derive(Debug, PartialEq, Eq)]
pub enum PatchOp {
    MountPage { tag: String },
    MountFragment { tag: String, parent_id: u32 },
    MountEachFragment,
    MountEachItem { tag: String, parent_id: u32 },
    MountTag { tag: String, parent_id: u32 },
    MountComment { parent_id: u32 },
    /// Creates the element without inserting it into the DOM.
    AddToMap { tag: String },
    /// Inserts the element before `reference_id`.
    InsertBefore { reference_id: u32, parent_id: u32 },
    MountEventListener { event_type: String, target_id_path: Vec<u32> },
    SetContent { value: String },
    SetAttribute { name: String, value: String },
    UnmountTag { parent_id: u32 },
    UnmountEachItem { each_id: u32, parent_id: u32 },
}

pub enum PatchOpView {
    MountPage { tag: Seq<char> },
    MountFragment { tag: Seq<char>, parent_id: u32 },
    MountEachFragment,
    MountEachItem { tag: Seq<char>, parent_id: u32 },
    MountTag { tag: Seq<char>, parent_id: u32 },
    MountComment { parent_id: u32 },
    AddToMap { tag: Seq<char> },
    InsertBefore { reference_id: u32, parent_id: u32 },
    MountEventListener { event_type: Seq<char>, target_id_path: Seq<u32> },
    SetContent { value: Seq<char> },
    SetAttribute { name: Seq<char>, value: Seq<char> },
    UnmountTag { parent_id: u32 },
    UnmountEachItem { each_id: u32, parent_id: u32 },
}

impl View for PatchOp {
    type V = PatchOpView;

    open spec fn view(&self) -> PatchOpView {
        match self {
            PatchOp::MountPage { tag } => PatchOpView::MountPage { tag: tag@ },
            PatchOp::MountFragment { tag, parent_id } => PatchOpView::MountFragment {
                tag: tag@,
                parent_id: *parent_id,
            },
            PatchOp::MountEachFragment => PatchOpView::MountEachFragment,
            PatchOp::MountEachItem { tag, parent_id } => PatchOpView::MountEachItem {
                tag: tag@,
                parent_id: *parent_id,
            },
            PatchOp::MountTag { tag, parent_id } => PatchOpView::MountTag {
                tag: tag@,
                parent_id: *parent_id,
            },
            PatchOp::MountComment { parent_id } => PatchOpView::MountComment {
                parent_id: *parent_id,
            },
            PatchOp::AddToMap { tag } => PatchOpView::AddToMap { tag: tag@ },
            PatchOp::InsertBefore { reference_id, parent_id } => PatchOpView::InsertBefore {
                reference_id: *reference_id,
                parent_id: *parent_id,
            },
            PatchOp::MountEventListener { event_type, target_id_path } =>
                PatchOpView::MountEventListener {
                event_type: event_type@,
                target_id_path: target_id_path@,
            },
            PatchOp::SetContent { value } => PatchOpView::SetContent { value: value@ },
            PatchOp::SetAttribute { name, value } => PatchOpView::SetAttribute {
                name: name@,
                value: value@,
            },
            PatchOp::UnmountTag { parent_id } => PatchOpView::UnmountTag { parent_id: *parent_id },
            PatchOp::UnmountEachItem { each_id, parent_id } => PatchOpView::UnmountEachItem {
                each_id: *each_id,
                parent_id: *parent_id,
            },
        }
    }
}

/// A tree of patches: a leaf applies an op to the element with the given id;
/// a node applies its children inside the element (component) with that id.
#[derive(Debug, PartialEq, Eq)]
pub enum PatchTreeNode {
    Leaf(u32, PatchOp),
    Node(u32, Vec<PatchTreeNode>),
}

pub enum PatchTreeView {
    Leaf(u32, PatchOpView),
    Node(u32, Seq<PatchTreeView>),
}

impl PatchTreeNode {
    pub open spec fn tree_view(&self) -> PatchTreeView
        decreases self,
    {
        match self {
            PatchTreeNode::Leaf(id, op) => PatchTreeView::Leaf(*id, op@),
            PatchTreeNode::Node(id, children) => PatchTreeView::Node(
                *id,
                Seq::new(
                    children@.len(),
                    |i: int|
                        if 0 <= i < children@.len() {
                            children@[i].tree_view()
                        } else {
                            PatchTreeView::Node(0, Seq::empty())
                        },
                ),
            ),
        }
    }
}

/// The views of a list of patch trees.
pub open spec fn trees_view(s: Seq<PatchTreeNode>) -> Seq<PatchTreeView> {
    s.map_values(|t: PatchTreeNode| t.tree_view())
}

pub open spec fn leaf(id: u32, op: PatchOpView) -> PatchTreeView {
    PatchTreeView::Leaf(id, op)
}

pub open spec fn set_content(id: u32, value: Seq<char>) -> PatchTreeView {
    PatchTreeView::Leaf(id, PatchOpView::SetContent { value })
}

/// Makes a `Node` patch and states its view.
pub fn node(id: u32, children: Vec<PatchTreeNode>) -> (t: PatchTreeNode)
    ensures
        t.tree_view() == PatchTreeView::Node(id, trees_view(children@)),
{
    let ghost c = children@;
    let t = PatchTreeNode::Node(id, children);
    proof {
        assert(t.tree_view()->Node_1 =~= trees_view(c));
    }
    t
}

/// Appends `more` to `patches` (`Vec::append`).
pub fn append_patches(patches: &mut Vec<PatchTreeNode>, more: Vec<PatchTreeNode>)
    ensures
        trees_view(final(patches)@) == trees_view(old(patches)@) + trees_view(more@),
{
    let ghost m = more@;
    let mut more = more;
    patches.append(&mut more);
    proof {
        assert(trees_view(patches@) =~= trees_view(old(patches)@) + trees_view(m));
    }
}

/// Pushes one patch.
pub fn push_patch(patches: &mut Vec<PatchTreeNode>, p: PatchTreeNode)
    ensures
        trees_view(final(patches)@) == trees_view(old(patches)@).push(p.tree_view()),
{
    patches.push(p);
    proof {
        assert(trees_view(patches@) =~= trees_view(old(patches)@).push(p.tree_view()));
    }
}

pub fn set_content_patch(id: u32, value: String) -> (t: PatchTreeNode)
    ensures
        t.tree_view() == set_content(id, value@),
{
    PatchTreeNode::Leaf(id, PatchOp::SetContent { value })
}

pub fn mount_tag(id: u32, tag: &str, parent_id: u32) -> (t: PatchTreeNode)
    ensures
        t.tree_view() == leaf(id, PatchOpView::MountTag { tag: tag@, parent_id }),
{
    PatchTreeNode::Leaf(id, PatchOp::MountTag { tag: String::from_str(tag), parent_id })
}

pub fn listener(id: u32, event_type: &str, target_id_path: Vec<u32>) -> (t: PatchTreeNode)
    ensures
        t.tree_view() == leaf(
            id,
            PatchOpView::MountEventListener { event_type: event_type@, target_id_path: target_id_path@ },
        ),
{
    PatchTreeNode::Leaf(
        id,
        PatchOp::MountEventListener { event_type: String::from_str(event_type), target_id_path },
    )
}

} // verus!
