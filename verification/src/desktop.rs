//! What is on the desktop: elements, the tree they form, and screenshots.

use vstd::prelude::*;

use crate::broker::{Authorization, ExecutionAuthorization};
use crate::protocol;
use crate::protocol::PolicyDecisionKind;
use crate::text;

verus! {

pub const DEFAULT_MAX_DEPTH: usize = 4;

pub const DEFAULT_MAX_NODES: usize = 512;

pub const ABSOLUTE_MAX_DEPTH: usize = 12;

pub const ABSOLUTE_MAX_NODES: usize = 4_096;

pub const ABSOLUTE_MAX_SCREENSHOT_PIXELS: u64 = 40_000_000;

pub const MAX_AUTOMATION_ID_BYTES: usize = 1_024;

pub const MAX_VALUE_BYTES: usize = 16_384;

#[derive(Debug, Clone, Copy, PartialEq, Eq, Structural)]
pub struct DesktopRect {
    pub left: i32,
    pub top: i32,
    pub right: i32,
    pub bottom: i32,
}

#[derive(Debug, Clone, PartialEq, Eq)]
pub struct ElementSnapshot {
    pub name: String,
    pub automation_id: String,
    pub control_type: i32,
    pub process_id: u32,
    pub native_window_handle: i64,
    pub bounds: DesktopRect,
    pub enabled: bool,
    pub offscreen: bool,
}

#[derive(Debug)]
pub struct DesktopScreenshot {
    pub origin_x: i32,
    pub origin_y: i32,
    pub width: u32,
    pub height: u32,
    pub png: Vec<u8>,
}

#[derive(Debug, Clone, PartialEq, Eq)]
pub struct SemanticNode {
    pub index: usize,
    pub parent_index: Option<usize>,
    pub depth: usize,
    pub element: ElementSnapshot,
}

#[derive(Debug, Clone, Copy, PartialEq, Eq, Structural)]
pub enum DesktopError {
    InvalidLimits,
    AuthorizationMismatch,
    InvalidActionParameters,
    TargetNotFound,
    TargetSearchLimit,
    PasswordFieldDenied,
    ReadOnlyElement,
    InvalidScreenshotDimensions,
    ScreenshotTooLarge,
    Gdi,
    Integer,
    Png,
}

/// An element that an approved action is for.
#[derive(Debug, PartialEq, Eq)]
pub struct ApprovedDesktopTarget {
    pub process_id: u32,
    pub automation_id: String,
}

// ---------------------------------------------------------------------------
// Approved actions

/// A name by which an element can be looked for.
pub open spec fn is_automation_id(value: Seq<char>) -> bool {
    value.len() > 0 && text::byte_len(value) <= MAX_AUTOMATION_ID_BYTES && !value.contains('\0')
}

/// Why an approved action has no target, if it has none.
pub open spec fn target_fault(authorization: Authorization, action: Seq<char>) -> Option<
    DesktopError,
> {
    let parameters = authorization.request.envelope.parameters@;
    let process = protocol::unsigned_parameter(parameters, "process_id"@);
    let id = protocol::text_parameter(parameters, "automation_id"@);
    if authorization.decision.kind != PolicyDecisionKind::Approval
        || authorization.request.envelope.action@ != action {
        Some(DesktopError::AuthorizationMismatch)
    } else if process is None || process->0 > u32::MAX || id is None || !is_automation_id(id->0) {
        Some(DesktopError::InvalidActionParameters)
    } else {
        None
    }
}

/// The target is the one that the action names.
pub open spec fn is_target(target: ApprovedDesktopTarget, authorization: Authorization) -> bool {
    let parameters = authorization.request.envelope.parameters@;
    &&& target.process_id == protocol::unsigned_parameter(parameters, "process_id"@)->0
    &&& target.automation_id@ == protocol::text_parameter(parameters, "automation_id"@)->0
}

fn automation_id_fits(value: &str) -> (r: bool)
    ensures
        r == is_automation_id(value@),
{
    let chars = text::chars_of(value);
    chars.len() > 0 && text::text_bytes(value) <= MAX_AUTOMATION_ID_BYTES && !text::contains_char(
        chars.as_slice(),
        '\0',
    )
}

/// The element that an approved action is for.
pub fn approved_target(execution: &ExecutionAuthorization, expected_action: &str) -> (r: Result<
    ApprovedDesktopTarget,
    DesktopError,
>)
    ensures
        r is Err == target_fault(execution.granted(), expected_action@) is Some,
        r is Err ==> r->Err_0 == target_fault(execution.granted(), expected_action@)->0,
        r is Ok ==> is_target(r->Ok_0, execution.granted()),
{
    let authorization = execution.authorization();
    if !authorization.requires_approval() || !text::same_text(
        authorization.request.envelope.action.as_str(),
        expected_action,
    ) {
        return Err(DesktopError::AuthorizationMismatch);
    }
    let parameters = &authorization.request.envelope.parameters;
    let process_id: u32 = match protocol::find_unsigned(parameters, "process_id") {
        None => {
            return Err(DesktopError::InvalidActionParameters);
        },
        Some(value) => {
            if value > 0xffff_ffff {
                return Err(DesktopError::InvalidActionParameters);
            }
            value as u32
        },
    };
    match protocol::find_text(parameters, "automation_id") {
        None => Err(DesktopError::InvalidActionParameters),
        Some(id) => {
            if !automation_id_fits(id) {
                return Err(DesktopError::InvalidActionParameters);
            }
            Ok(ApprovedDesktopTarget { process_id, automation_id: text::copied(id) })
        },
    }
}

/// Why a value cannot be set, if it cannot.
pub open spec fn value_fault(authorization: Authorization) -> Option<DesktopError> {
    let value = protocol::text_parameter(authorization.request.envelope.parameters@, "value"@);
    first(
        target_fault(authorization, "desktop.set_value"@),
        if value is None || text::byte_len(value->0) > MAX_VALUE_BYTES || value->0.contains('\0') {
            Some(DesktopError::InvalidActionParameters)
        } else {
            None
        },
    )
}

pub open spec fn first(a: Option<DesktopError>, b: Option<DesktopError>) -> Option<DesktopError> {
    if a is Some {
        a
    } else {
        b
    }
}

/// The element and the value that an approved action sets.
pub fn set_value(execution: &ExecutionAuthorization) -> (r: Result<
    (ApprovedDesktopTarget, String),
    DesktopError,
>)
    ensures
        r is Err == value_fault(execution.granted()) is Some,
        r is Err ==> r->Err_0 == value_fault(execution.granted())->0,
        r is Ok ==> is_target(r->Ok_0.0, execution.granted()) && r->Ok_0.1@
            == protocol::text_parameter(
            execution.granted().request.envelope.parameters@,
            "value"@,
        )->0,
{
    let target = match approved_target(execution, "desktop.set_value") {
        Err(error) => {
            return Err(error);
        },
        Ok(target) => target,
    };
    let authorization = execution.authorization();
    match protocol::find_text(&authorization.request.envelope.parameters, "value") {
        None => Err(DesktopError::InvalidActionParameters),
        Some(value) => {
            let chars = text::chars_of(value);
            if text::text_bytes(value) > MAX_VALUE_BYTES || text::contains_char(
                chars.as_slice(),
                '\0',
            ) {
                return Err(DesktopError::InvalidActionParameters);
            }
            Ok((target, text::copied(value)))
        },
    }
}

/// May the value of this element be set?
pub fn check_settable(is_password: bool, is_read_only: bool) -> (r: Result<(), DesktopError>)
    ensures
        r is Ok == (!is_password && !is_read_only),
        is_password ==> r == Err::<(), DesktopError>(DesktopError::PasswordFieldDenied),
        !is_password && is_read_only ==> r == Err::<(), DesktopError>(
            DesktopError::ReadOnlyElement,
        ),
{
    if is_password {
        return Err(DesktopError::PasswordFieldDenied);
    }
    if is_read_only {
        return Err(DesktopError::ReadOnlyElement);
    }
    Ok(())
}

// ---------------------------------------------------------------------------
// Looking for an element

/// A search for the element of a process with a name. Elements are known to it by
/// numbers of the caller's.
#[derive(Debug)]
pub struct TargetSearch {
    pub process_id: u32,
    pub automation_id: String,
    pub queue: Vec<u64>,
    pub visited: usize,
}

/// What a search asks for, or what it came to.
#[derive(Debug, Clone, Copy, PartialEq, Eq, Structural)]
pub enum SearchTurn {
    /// Tell the process and the name of this element.
    Look(u64),
    /// Tell the children of this element.
    Expand(u64),
    Found(u64),
    Failed(DesktopError),
}

/// The element is the one that is looked for.
pub open spec fn is_sought(
    process_id: u32,
    automation_id: Seq<char>,
    found_process: Option<i32>,
    found_id: Option<Seq<char>>,
) -> bool {
    found_process == (if process_id <= i32::MAX {
        Some(process_id as i32)
    } else {
        None
    }) && found_id == Some(automation_id)
}

pub open spec fn id_model(id: Option<String>) -> Option<Seq<char>> {
    match id {
        Some(id) => Some(id@),
        None => None,
    }
}

impl TargetSearch {
    /// Begins at the root.
    pub fn new(target: &ApprovedDesktopTarget, root: u64) -> (r: Result<Self, DesktopError>)
        ensures
            r is Ok == is_automation_id(target.automation_id@),
            r is Err ==> r->Err_0 == DesktopError::InvalidActionParameters,
            r is Ok ==> r->Ok_0.process_id == target.process_id && r->Ok_0.automation_id@
                == target.automation_id@ && r->Ok_0.queue@ == seq![root] && r->Ok_0.visited == 0,
    {
        if !automation_id_fits(target.automation_id.as_str()) {
            return Err(DesktopError::InvalidActionParameters);
        }
        let mut queue: Vec<u64> = Vec::new();
        queue.push(root);
        proof {
            assert(queue@ =~= seq![root]);
        }
        Ok(
            TargetSearch {
                process_id: target.process_id,
                automation_id: target.automation_id.clone(),
                queue,
                visited: 0,
            },
        )
    }

    /// Takes the next element, in the order in which they were found.
    pub fn next(&mut self) -> (turn: SearchTurn)
        requires
            old(self).visited <= ABSOLUTE_MAX_NODES,
        ensures
            final(self).process_id == old(self).process_id,
            final(self).automation_id == old(self).automation_id,
            old(self).queue@.len() == 0 ==> turn == SearchTurn::Failed(
                DesktopError::TargetNotFound,
            ) && *final(self) == *old(self),
            old(self).queue@.len() > 0 ==> final(self).queue@ == old(self).queue@.drop_first()
                && final(self).visited == old(self).visited + 1 && turn == (if final(self).visited
                > ABSOLUTE_MAX_NODES {
                SearchTurn::Failed(DesktopError::TargetSearchLimit)
            } else {
                SearchTurn::Look(old(self).queue@[0])
            }),
    {
        if self.queue.len() == 0 {
            return SearchTurn::Failed(DesktopError::TargetNotFound);
        }
        let element: u64 = self.queue.remove(0);
        proof {
            assert(self.queue@ =~= old(self).queue@.drop_first());
        }
        self.visited = self.visited + 1;
        if self.visited > ABSOLUTE_MAX_NODES {
            return SearchTurn::Failed(DesktopError::TargetSearchLimit);
        }
        SearchTurn::Look(element)
    }

    /// Takes in what an element is.
    pub fn looked(&self, element: u64, process_id: Option<i32>, automation_id: &Option<String>) -> (turn:
        SearchTurn)
        ensures
            turn == (if is_sought(
                self.process_id,
                self.automation_id@,
                process_id,
                id_model(*automation_id),
            ) {
                SearchTurn::Found(element)
            } else {
                SearchTurn::Expand(element)
            }),
    {
        let same_process = match process_id {
            None => self.process_id > 0x7fff_ffff,
            Some(found) => self.process_id <= 0x7fff_ffff && found == self.process_id as i32,
        };
        let same_id = match automation_id {
            None => false,
            Some(id) => text::same_text(id.as_str(), self.automation_id.as_str()),
        };
        if same_process && same_id {
            SearchTurn::Found(element)
        } else {
            SearchTurn::Expand(element)
        }
    }

    /// Takes in the children of an element.
    pub fn expanded(&mut self, children: &Vec<u64>)
        ensures
            final(self).queue@ == old(self).queue@ + children@,
            final(self).visited == old(self).visited,
            final(self).process_id == old(self).process_id,
            final(self).automation_id == old(self).automation_id,
    {
        let mut i: usize = 0;
        proof {
            assert(self.queue@ =~= old(self).queue@ + children@.take(0));
        }
        while i < children.len()
            invariant
                i <= children@.len(),
                self.queue@ == old(self).queue@ + children@.take(i as int),
                self.visited == old(self).visited,
                self.process_id == old(self).process_id,
                self.automation_id == old(self).automation_id,
            decreases children@.len() - i,
        {
            self.queue.push(children[i]);
            proof {
                assert(self.queue@ =~= old(self).queue@ + children@.take(i + 1));
            }
            i = i + 1;
        }
        proof {
            assert(children@.take(i as int) =~= children@);
        }
    }
}

// ---------------------------------------------------------------------------
// The tree of elements

/// An element that is still to be looked at.
#[derive(Debug, Clone, Copy, PartialEq, Eq, Structural)]
pub struct PendingElement {
    pub element: u64,
    pub parent_index: Option<usize>,
    pub depth: usize,
}

/// A tree under way, level by level.
#[derive(Debug)]
pub struct TreeWalk {
    pub max_depth: usize,
    pub max_nodes: usize,
    pub queue: Vec<PendingElement>,
    pub nodes: Vec<SemanticNode>,
}

pub open spec fn depth_limit(max_depth: Option<usize>) -> usize {
    match max_depth {
        Some(depth) => depth,
        None => DEFAULT_MAX_DEPTH,
    }
}

pub open spec fn node_limit(max_nodes: Option<usize>) -> usize {
    match max_nodes {
        Some(nodes) => nodes,
        None => DEFAULT_MAX_NODES,
    }
}

pub open spec fn limits_fit(max_depth: Option<usize>, max_nodes: Option<usize>) -> bool {
    depth_limit(max_depth) <= ABSOLUTE_MAX_DEPTH && 0 < node_limit(max_nodes) <= ABSOLUTE_MAX_NODES
}

/// The entry hangs below a node that is there, one level deeper, or is at the top.
pub open spec fn hangs(parent_index: Option<usize>, depth: usize, nodes: Seq<SemanticNode>) -> bool {
    match parent_index {
        None => depth == 0,
        Some(parent) => parent < nodes.len() && depth == nodes[parent as int].depth + 1,
    }
}

/// The nodes are numbered in order, hang together, and are within the limits; so
/// are the elements still to come.
pub open spec fn is_tree(walk: TreeWalk) -> bool {
    &&& walk.nodes@.len() <= walk.max_nodes
    &&& forall|i: int|
        0 <= i < walk.nodes@.len() ==> (#[trigger] walk.nodes@[i]).index == i
            && walk.nodes@[i].depth <= walk.max_depth && hangs(
            walk.nodes@[i].parent_index,
            walk.nodes@[i].depth,
            walk.nodes@.take(i),
        )
    &&& forall|i: int|
        0 <= i < walk.queue@.len() ==> (#[trigger] walk.queue@[i]).depth <= walk.max_depth && hangs(
            walk.queue@[i].parent_index,
            walk.queue@[i].depth,
            walk.nodes@,
        )
}

impl TreeWalk {
    /// Begins a tree within limits.
    pub fn new(max_depth: Option<usize>, max_nodes: Option<usize>) -> (r: Result<
        Self,
        DesktopError,
    >)
        ensures
            r is Ok == limits_fit(max_depth, max_nodes),
            r is Err ==> r->Err_0 == DesktopError::InvalidLimits,
            r is Ok ==> r->Ok_0.max_depth == depth_limit(max_depth) && r->Ok_0.max_nodes
                == node_limit(max_nodes) && r->Ok_0.queue@.len() == 0 && r->Ok_0.nodes@.len() == 0
                && is_tree(r->Ok_0),
    {
        let max_depth: usize = match max_depth {
            Some(depth) => depth,
            None => DEFAULT_MAX_DEPTH,
        };
        let max_nodes: usize = match max_nodes {
            Some(nodes) => nodes,
            None => DEFAULT_MAX_NODES,
        };
        if max_depth > ABSOLUTE_MAX_DEPTH || max_nodes == 0 || max_nodes > ABSOLUTE_MAX_NODES {
            return Err(DesktopError::InvalidLimits);
        }
        Ok(TreeWalk { max_depth, max_nodes, queue: Vec::new(), nodes: Vec::new() })
    }

    /// Takes in the children of the root, or of a node.
    pub fn enqueue_children(
        &mut self,
        children: &Vec<u64>,
        parent_index: Option<usize>,
        depth: usize,
    )
        requires
            is_tree(*old(self)),
            depth <= old(self).max_depth,
            hangs(parent_index, depth, old(self).nodes@),
        ensures
            is_tree(*final(self)),
            *final(self) == (TreeWalk { queue: final(self).queue, ..*old(self) }),
            final(self).queue@ == old(self).queue@ + Seq::new(
                children@.len(),
                |i: int| PendingElement { element: children@[i], parent_index, depth },
            ),
    {
        let ghost more = Seq::new(
            children@.len(),
            |i: int| PendingElement { element: children@[i], parent_index, depth },
        );
        let mut i: usize = 0;
        proof {
            assert(self.queue@ =~= old(self).queue@ + more.take(0));
        }
        while i < children.len()
            invariant
                i <= children@.len(),
                more.len() == children@.len(),
                more == Seq::new(
                    children@.len(),
                    |i: int| PendingElement { element: children@[i], parent_index, depth },
                ),
                self.max_depth == old(self).max_depth,
                self.max_nodes == old(self).max_nodes,
                self.nodes == old(self).nodes,
                self.queue@ == old(self).queue@ + more.take(i as int),
            decreases children@.len() - i,
        {
            self.queue.push(PendingElement { element: children[i], parent_index, depth });
            proof {
                assert(self.queue@ =~= old(self).queue@ + more.take(i + 1));
            }
            i = i + 1;
        }
        proof {
            assert(more.take(i as int) =~= more);
            assert forall|k: int| 0 <= k < self.queue@.len() implies (#[trigger] self.queue@[k]).depth
                <= self.max_depth && hangs(
                self.queue@[k].parent_index,
                self.queue@[k].depth,
                self.nodes@,
            ) by {
                if k < old(self).queue@.len() {
                    assert(self.queue@[k] == old(self).queue@[k]);
                } else {
                    assert(self.queue@[k] == more[k - old(self).queue@.len()]);
                }
            }
        }
    }

    /// Takes the next element, unless there are nodes enough.
    pub fn next(&mut self) -> (r: Option<PendingElement>)
        requires
            is_tree(*old(self)),
        ensures
            is_tree(*final(self)),
            r is Some == (old(self).queue@.len() > 0 && old(self).nodes@.len()
                < old(self).max_nodes),
            final(self).nodes == old(self).nodes,
            final(self).max_depth == old(self).max_depth,
            final(self).max_nodes == old(self).max_nodes,
            r is Some ==> r->0 == old(self).queue@[0] && final(self).queue@
                == old(self).queue@.drop_first(),
            r is Some ==> r->0.depth <= final(self).max_depth && hangs(
                r->0.parent_index,
                r->0.depth,
                final(self).nodes@,
            ),
            r is None ==> final(self).queue@ == old(self).queue@,
    {
        if self.queue.len() == 0 || self.nodes.len() >= self.max_nodes {
            return None;
        }
        let next = self.queue.remove(0);
        proof {
            assert(next == old(self).queue@[0]);
            assert(self.queue@ =~= old(self).queue@.drop_first());
            assert forall|k: int| 0 <= k < self.queue@.len() implies (#[trigger] self.queue@[k]).depth
                <= self.max_depth && hangs(
                self.queue@[k].parent_index,
                self.queue@[k].depth,
                self.nodes@,
            ) by {
                assert(self.queue@[k] == old(self).queue@[k + 1]);
            }
        }
        Some(next)
    }

    /// Takes in an element as a node. Says whether its children are wanted too, and
    /// for which node and depth.
    pub fn take(&mut self, pending: &PendingElement, element: ElementSnapshot) -> (r: Option<
        (usize, usize),
    >)
        requires
            is_tree(*old(self)),
            old(self).nodes@.len() < old(self).max_nodes,
            old(self).max_nodes <= ABSOLUTE_MAX_NODES,
            old(self).max_depth <= ABSOLUTE_MAX_DEPTH,
            pending.depth <= old(self).max_depth,
            hangs(pending.parent_index, pending.depth, old(self).nodes@),
        ensures
            is_tree(*final(self)),
            *final(self) == (TreeWalk { nodes: final(self).nodes, ..*old(self) }),
            final(self).nodes@ == old(self).nodes@.push(
                SemanticNode {
                    index: old(self).nodes@.len() as usize,
                    parent_index: pending.parent_index,
                    depth: pending.depth,
                    element,
                },
            ),
            r is Some == (pending.depth < final(self).max_depth && final(self).nodes@.len()
                < final(self).max_nodes),
            r matches Some((index, depth)) ==> index == old(self).nodes@.len() && depth
                == pending.depth + 1 && hangs(Some(index), depth, final(self).nodes@) && depth
                <= final(self).max_depth,
    {
        let index: usize = self.nodes.len();
        let node = SemanticNode {
            index,
            parent_index: pending.parent_index,
            depth: pending.depth,
            element,
        };
        self.nodes.push(node);
        proof {
            let before = old(self).nodes@;
            let after = self.nodes@;
            assert forall|i: int| 0 <= i < after.len() implies (#[trigger] after[i]).index == i
                && after[i].depth <= self.max_depth && hangs(
                after[i].parent_index,
                after[i].depth,
                after.take(i),
            ) by {
                if i < before.len() {
                    assert(after[i] == before[i]);
                    assert(after.take(i) =~= before.take(i));
                } else {
                    assert(after.take(i) =~= before);
                }
            }
            assert forall|k: int| 0 <= k < self.queue@.len() implies (#[trigger] self.queue@[k]).depth
                <= self.max_depth && hangs(
                self.queue@[k].parent_index,
                self.queue@[k].depth,
                after,
            ) by {
                assert(hangs(self.queue@[k].parent_index, self.queue@[k].depth, before));
            }
        }
        if pending.depth < self.max_depth && self.nodes.len() < self.max_nodes {
            Some((index, pending.depth + 1))
        } else {
            None
        }
    }
}

// ---------------------------------------------------------------------------
// Screenshots

/// How many bytes the pixels of a screen take, or why it cannot be captured.
pub open spec fn screen_bytes(width: i32, height: i32) -> Result<nat, DesktopError> {
    if width <= 0 || height <= 0 {
        Err(DesktopError::InvalidScreenshotDimensions)
    } else if width * height > ABSOLUTE_MAX_SCREENSHOT_PIXELS {
        Err(DesktopError::ScreenshotTooLarge)
    } else {
        Ok((width * height * 4) as nat)
    }
}

/// How many bytes the pixels of a screen take.
pub fn screenshot_bytes(width: i32, height: i32) -> (r: Result<usize, DesktopError>)
    ensures
        r is Err == screen_bytes(width, height) is Err,
        r is Err ==> r->Err_0 == screen_bytes(width, height)->Err_0,
        r is Ok ==> r->Ok_0 == screen_bytes(width, height)->Ok_0,
{
    if width <= 0 || height <= 0 {
        return Err(DesktopError::InvalidScreenshotDimensions);
    }
    proof {
        assert(0 < width * height <= 0x7fff_ffff * 0x7fff_ffff) by (nonlinear_arith)
            requires
                0 < width <= 0x7fff_ffff,
                0 < height <= 0x7fff_ffff,
        ;
    }
    let pixels: u64 = width as u64 * height as u64;
    if pixels > ABSOLUTE_MAX_SCREENSHOT_PIXELS {
        return Err(DesktopError::ScreenshotTooLarge);
    }
    Ok((pixels * 4) as usize)
}

/// A pixel with red and blue in each other's place, and opaque: of the byte at `i`.
pub open spec fn opaque_byte(bytes: Seq<u8>, i: int) -> u8 {
    if i % 4 == 0 {
        bytes[i + 2]
    } else if i % 4 == 2 {
        bytes[i - 2]
    } else if i % 4 == 3 {
        255
    } else {
        bytes[i]
    }
}

/// The pixels as an image has them, of the pixels as a screen has them.
pub open spec fn opaque_pixels(bytes: Seq<u8>) -> Seq<u8> {
    Seq::new(bytes.len(), |i: int| opaque_byte(bytes, i))
}

/// The pixels as an image has them.
pub fn to_rgba(bytes: &[u8]) -> (rgba: Vec<u8>)
    requires
        bytes@.len() % 4 == 0,
    ensures
        rgba@ == opaque_pixels(bytes@),
{
    let n: usize = bytes.len();
    let mut rgba: Vec<u8> = Vec::new();
    let mut i: usize = 0;
    while i < n
        invariant
            n == bytes@.len(),
            n % 4 == 0,
            i <= n,
            i % 4 == 0,
            rgba@ == opaque_pixels(bytes@).take(i as int),
        decreases n - i,
    {
        rgba.push(bytes[i + 2]);
        rgba.push(bytes[i + 1]);
        rgba.push(bytes[i]);
        rgba.push(255);
        proof {
            assert(rgba@ =~= opaque_pixels(bytes@).take(i + 4));
        }
        i = i + 4;
    }
    proof {
        assert(rgba@ =~= opaque_pixels(bytes@));
    }
    rgba
}

/// The image of some pixels as a PNG file, if it can be made.
pub uninterp spec fn png_image(width: u32, height: u32, rgba: Seq<u8>) -> Option<Seq<u8>>;

/// The bytes that every PNG file begins with.
pub open spec fn png_signature() -> Seq<u8> {
    seq![137u8, 80u8, 78u8, 71u8, 13u8, 10u8, 26u8, 10u8]
}

/// `png::Encoder`, with eight bits for each of red, green, blue and opacity: the
/// file of an image, a function of its size and pixels. It is claimed that the
/// file begins as every PNG file does.
#[verifier::external_body]
fn encode_png(width: u32, height: u32, rgba: &[u8]) -> (r: Option<Vec<u8>>)
    requires
        width > 0,
        height > 0,
        rgba@.len() == 4 * width * height,
    ensures
        r is Some == png_image(width, height, rgba@) is Some,
        r is Some ==> r->0@ == png_image(width, height, rgba@)->0 && png_signature().is_prefix_of(
            r->0@,
        ),
{
    let mut bytes = Vec::new();
    {
        let mut encoder = png::Encoder::new(&mut bytes, width, height);
        encoder.set_color(png::ColorType::Rgba);
        encoder.set_depth(png::BitDepth::Eight);
        let mut writer = encoder.write_header().ok()?;
        writer.write_image_data(rgba).ok()?;
    }
    Some(bytes)
}

/// Why the pixels of a screen give no screenshot, if they do not.
pub open spec fn screenshot_fault(width: i32, height: i32, pixels: Seq<u8>, lines: i32) -> Option<
    DesktopError,
> {
    match screen_bytes(width, height) {
        Err(error) => Some(error),
        Ok(len) => if lines != height || pixels.len() != len {
            Some(DesktopError::Gdi)
        } else if png_image(width as u32, height as u32, opaque_pixels(pixels)) is None {
            Some(DesktopError::Png)
        } else {
            None
        },
    }
}

/// The screenshot of a screen, of the pixels that were copied from it.
pub fn capture_virtual_desktop_png(
    x: i32,
    y: i32,
    width: i32,
    height: i32,
    pixels: &[u8],
    lines: i32,
) -> (r: Result<DesktopScreenshot, DesktopError>)
    ensures
        r is Err == screenshot_fault(width, height, pixels@, lines) is Some,
        r is Err ==> r->Err_0 == screenshot_fault(width, height, pixels@, lines)->0,
        r is Ok ==> ({
            let shot = r->Ok_0;
            &&& shot.origin_x == x
            &&& shot.origin_y == y
            &&& shot.width == width
            &&& shot.height == height
            &&& shot.png@ == png_image(width as u32, height as u32, opaque_pixels(pixels@))->0
            &&& png_signature().is_prefix_of(shot.png@)
        }),
{
    let byte_len: usize = match screenshot_bytes(width, height) {
        Err(error) => {
            return Err(error);
        },
        Ok(len) => len,
    };
    if lines != height || pixels.len() != byte_len {
        return Err(DesktopError::Gdi);
    }
    proof {
        assert((width * height * 4) % 4 == 0);
        assert(4 * width * height == width * height * 4) by (nonlinear_arith);
    }
    let rgba = to_rgba(pixels);
    match encode_png(width as u32, height as u32, rgba.as_slice()) {
        None => Err(DesktopError::Png),
        Some(png) => Ok(
            DesktopScreenshot {
                origin_x: x,
                origin_y: y,
                width: width as u32,
                height: height as u32,
                png,
            },
        ),
    }
}

// ---------------------------------------------------------------------------
// Laws

/// The node that a node hangs below comes before it, and is one level higher.
pub proof fn parents_come_first(walk: TreeWalk, i: int)
    requires
        is_tree(walk),
        0 <= i < walk.nodes@.len(),
    ensures
        walk.nodes@.len() <= walk.max_nodes,
        walk.nodes@[i].depth <= walk.max_depth,
        walk.nodes@[i].parent_index matches Some(parent) ==> parent < i
            && walk.nodes@[parent as int].depth + 1 == walk.nodes@[i].depth,
        walk.nodes@[i].parent_index is None ==> walk.nodes@[i].depth == 0,
{
    assert(hangs(
        walk.nodes@[i].parent_index,
        walk.nodes@[i].depth,
        walk.nodes@.take(i),
    ));
}

/// Every pixel of a screenshot is opaque.
pub proof fn screenshots_are_opaque(bytes: Seq<u8>, pixel: int)
    requires
        0 <= pixel,
        4 * pixel + 3 < bytes.len(),
    ensures
        opaque_pixels(bytes)[4 * pixel + 3] == 255,
        opaque_pixels(bytes)[4 * pixel] == bytes[4 * pixel + 2],
        opaque_pixels(bytes)[4 * pixel + 1] == bytes[4 * pixel + 1],
        opaque_pixels(bytes)[4 * pixel + 2] == bytes[4 * pixel],
{
}

/// An element may be acted on exactly when an approval was asked for this action, and it is
/// named by a process that can be told and a name of 1 to 1024 bytes without a zero.
pub proof fn elements_are_acted_on_exactly_when_named(authorization: Authorization, action: Seq<char>)
    ensures
        ({
            let p = authorization.request.envelope.parameters@;
            let process = protocol::unsigned_parameter(p, "process_id"@);
            let id = protocol::text_parameter(p, "automation_id"@);
            let asked = authorization.decision.kind is Approval
                && authorization.request.envelope.action@ == action;
            let named = process is Some && process->0 < 0x1_0000_0000 && id is Some && id->0.len()
                > 0 && vstd::utf8::encode_utf8(id->0).len() <= 1024 && !id->0.contains('\0');
            let r = target_fault(authorization, action);
            &&& r is None <==> asked && named
            &&& !asked ==> r == Some(DesktopError::AuthorizationMismatch)
            &&& asked && !named ==> r == Some(DesktopError::InvalidActionParameters)
        }),
{
}

/// A value may be set exactly when its element may be acted on, and it is at most 16384
/// bytes without a zero.
pub proof fn values_are_set_exactly_when_they_fit(authorization: Authorization)
    ensures
        ({
            let value = protocol::text_parameter(
                authorization.request.envelope.parameters@,
                "value"@,
            );
            let target = target_fault(authorization, "desktop.set_value"@);
            let fits = value is Some && vstd::utf8::encode_utf8(value->0).len() <= 16_384
                && !value->0.contains('\0');
            let r = value_fault(authorization);
            &&& r is None <==> target is None && fits
            &&& target is Some ==> r == target
            &&& target is None && !fits ==> r == Some(DesktopError::InvalidActionParameters)
        }),
{
}

/// The element that is acted on is the one that the request names: of that process, with
/// that name.
pub proof fn elements_are_found_by_process_and_name(
    target: ApprovedDesktopTarget,
    authorization: Authorization,
    found_process: i32,
    found_id: Seq<char>,
)
    requires
        target_fault(authorization, authorization.request.envelope.action@) is None,
        is_target(target, authorization),
    ensures
        Some(target.process_id as u64) == protocol::unsigned_parameter(
            authorization.request.envelope.parameters@,
            "process_id"@,
        ),
        Some(target.automation_id@) == protocol::text_parameter(
            authorization.request.envelope.parameters@,
            "automation_id"@,
        ),
        is_sought(
            target.process_id,
            target.automation_id@,
            Some(found_process),
            Some(found_id),
        ) <==> found_process == target.process_id && found_id == target.automation_id@,
        !is_sought(target.process_id, target.automation_id@, Some(found_process), None),
{
}

/// A walk goes at most 12 levels down and takes 1 to 4096 elements, 4 levels and 512 elements
/// where it does not say.
pub proof fn walks_are_bounded(depth: usize, nodes: usize)
    ensures
        limits_fit(Some(depth), Some(nodes)) <==> depth <= 12 && 1 <= nodes <= 4096,
        limits_fit(None, Some(nodes)) <==> 1 <= nodes <= 4096,
        limits_fit(Some(depth), None) <==> depth <= 12,
        limits_fit(None, None),
        depth_limit(None) == 4,
        node_limit(None) == 512,
        depth_limit(Some(depth)) == depth,
        node_limit(Some(nodes)) == nodes,
        ABSOLUTE_MAX_NODES == 4096,
        ABSOLUTE_MAX_DEPTH == 12,
{
}

/// A picture has a width, a height and at most 40000000 pixels of four bytes each, and is
/// taken exactly when all its lines and bytes came and it could be encoded.
pub proof fn pictures_have_four_bytes_a_pixel(width: i32, height: i32, pixels: Seq<u8>, lines: i32)
    ensures
        ({
            let sized = width > 0 && height > 0;
            let small = width * height <= 40_000_000;
            let whole = lines == height && pixels.len() == 4 * (width * height);
            let r = screenshot_fault(width, height, pixels, lines);
            &&& sized && small ==> screen_bytes(width, height) is Ok && screen_bytes(
                width,
                height,
            )->Ok_0 == 4 * (width * height)
            &&& r is None <==> sized && small && whole && png_image(
                width as u32,
                height as u32,
                opaque_pixels(pixels),
            ) is Some
            &&& !sized ==> r == Some(DesktopError::InvalidScreenshotDimensions)
            &&& sized && !small ==> r == Some(DesktopError::ScreenshotTooLarge)
            &&& sized && small && !whole ==> r == Some(DesktopError::Gdi)
        }),
{
    if width > 0 && height > 0 {
        assert(width * height > 0) by (nonlinear_arith)
            requires
                width > 0,
                height > 0,
        ;
    }
}

} // verus!
