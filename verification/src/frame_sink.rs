//! Frames of outside textures, queued for the thread that draws.
//!
//! Commands are carried out in the order in which they were given: a frame
//! that was pushed, or a clip that was moved, is never overtaken.
use vstd::prelude::*;

use crate::gpu::external::{cleared, migrated, pushed, selected, streamed_over, ExternalTextures};
use crate::node::NodeId;

verus! {

/// A frame: `width * height` RGBA pixels.
#[derive(Clone, Debug)]
pub struct PendingFrame {
    pub width: u32,
    pub height: u32,
    pub rgba: Vec<u8>,
}

/// A command of a [`FrameSink`].
#[derive(Clone, Debug)]
pub enum FrameCmd {
    /// Upload a frame over the node's last one.
    Frame { node: NodeId, frame: PendingFrame },
    /// Add a frame to the node's clip and show it.
    Push { node: NodeId, frame: PendingFrame },
    /// Show a frame of the node's clip.
    Select { node: NodeId, index: usize },
    /// Give the clip of a node to another.
    Migrate { from: NodeId, to: NodeId },
    /// Drop everything that was kept for a node.
    Clear { node: NodeId },
}

/// The queue of commands.
#[derive(Debug)]
pub struct FrameSink {
    queue: Vec<FrameCmd>,
}

impl View for FrameSink {
    type V = Seq<FrameCmd>;

    closed spec fn view(&self) -> Seq<FrameCmd> {
        self.queue@
    }
}

impl FrameSink {
    pub fn new() -> (r: Self)
        ensures
            r@ == Seq::<FrameCmd>::empty(),
    {
        FrameSink { queue: Vec::new() }
    }

    /// Uploads a frame over the node's last one.
    pub fn submit(&mut self, node: NodeId, width: u32, height: u32, rgba: Vec<u8>)
        ensures
            final(self)@ == old(self)@.push(
                FrameCmd::Frame { node, frame: PendingFrame { width, height, rgba } },
            ),
    {
        self.queue.push(FrameCmd::Frame { node, frame: PendingFrame { width, height, rgba } });
    }

    /// Adds a frame to the node's clip and shows it.
    pub fn push_frame(&mut self, node: NodeId, width: u32, height: u32, rgba: Vec<u8>)
        ensures
            final(self)@ == old(self)@.push(
                FrameCmd::Push { node, frame: PendingFrame { width, height, rgba } },
            ),
    {
        self.queue.push(FrameCmd::Push { node, frame: PendingFrame { width, height, rgba } });
    }

    /// Shows a frame of the node's clip.
    pub fn select(&mut self, node: NodeId, index: usize)
        ensures
            final(self)@ == old(self)@.push(FrameCmd::Select { node, index }),
    {
        self.queue.push(FrameCmd::Select { node, index });
    }

    /// Gives the clip of a node to another.
    pub fn migrate(&mut self, from: NodeId, to: NodeId)
        ensures
            final(self)@ == old(self)@.push(FrameCmd::Migrate { from, to }),
    {
        self.queue.push(FrameCmd::Migrate { from, to });
    }

    /// Drops everything that was kept for a node.
    pub fn clear(&mut self, node: NodeId)
        ensures
            final(self)@ == old(self)@.push(FrameCmd::Clear { node }),
    {
        self.queue.push(FrameCmd::Clear { node });
    }

    /// Takes all commands, in the order in which they were given.
    pub fn drain(&mut self) -> (r: Vec<FrameCmd>)
        ensures
            r@ == old(self)@,
            final(self)@ == Seq::<FrameCmd>::empty(),
    {
        let mut taken: Vec<FrameCmd> = Vec::new();
        std::mem::swap(&mut taken, &mut self.queue);
        taken
    }
}

/// What a command asks of the GPU.
#[derive(Copy, Clone, Debug, PartialEq, Eq, Structural)]
pub enum FrameAction {
    /// Write the pixels to the node's texture, which has to be made first
    /// where `create` says so.
    WriteStream { node: NodeId, create: bool },
    /// Make a texture of the pixels, as frame `index` of the node's clip.
    MakeFrame { node: NodeId, index: usize },
    /// Nothing but what is shown has changed.
    Rebind,
}

/// The frame has the number of bytes that its size says.
pub open spec fn frame_ok(f: PendingFrame) -> bool {
    f.width * f.height * 4 <= u32::MAX && f.rgba@.len() == f.width * f.height * 4
}

/// The command can be carried out.
pub open spec fn cmd_ok(t: ExternalTextures, cmd: FrameCmd) -> bool {
    match cmd {
        FrameCmd::Frame { node, frame } => frame_ok(frame),
        FrameCmd::Push { node, frame } => {
            &&& frame_ok(frame)
            &&& t.resident_bytes() + frame.width * frame.height * 4 <= u64::MAX
            &&& t.clip(node) matches Some(s) ==> s.frames < usize::MAX
        },
        _ => true,
    }
}

/// Carries out a command.
pub fn apply_frame_cmd(textures: &mut ExternalTextures, cmd: &FrameCmd) -> (r: FrameAction)
    requires
        old(textures).wf(),
        cmd_ok(*old(textures), *cmd),
    ensures
        final(textures).wf(),
        match *cmd {
            FrameCmd::Frame { node, frame } => {
                let kept = old(textures).streams();
                &&& r == FrameAction::WriteStream {
                    node,
                    create: !(kept.contains_key(node.index) && kept[node.index] == (
                        frame.width,
                        frame.height,
                    )),
                }
                &&& streamed_over(*old(textures), *final(textures), node, frame.width, frame.height)
            },
            FrameCmd::Push { node, frame } => {
                let index = match old(textures).clip(node) {
                    Some(s) => s.frames,
                    None => 0,
                };
                &&& r == FrameAction::MakeFrame { node, index }
                &&& pushed(*old(textures), *final(textures), node, frame.width, frame.height)
            },
            FrameCmd::Select { node, index } => {
                &&& r == FrameAction::Rebind
                &&& selected(*old(textures), *final(textures), node, index)
            },
            FrameCmd::Migrate { from, to } => {
                &&& r == FrameAction::Rebind
                &&& migrated(*old(textures), *final(textures), from, to)
            },
            FrameCmd::Clear { node } => {
                &&& r == FrameAction::Rebind
                &&& cleared(*old(textures), *final(textures), node)
            },
        },
{
    match cmd {
        FrameCmd::Frame { node, frame } => {
            let create: bool = textures.upload_external_frame(*node, frame.width, frame.height);
            FrameAction::WriteStream { node: *node, create }
        },
        FrameCmd::Push { node, frame } => {
            let index: usize = textures.push_external_frame(*node, frame.width, frame.height);
            FrameAction::MakeFrame { node: *node, index }
        },
        FrameCmd::Select { node, index } => {
            textures.select_external_frame(*node, *index);
            FrameAction::Rebind
        },
        FrameCmd::Migrate { from, to } => {
            textures.migrate_external_frames(*from, *to);
            FrameAction::Rebind
        },
        FrameCmd::Clear { node } => {
            textures.clear_external_texture(*node);
            FrameAction::Rebind
        },
    }
}

/// A queue to which commands were given one after the other.
pub open spec fn given(queue: Seq<FrameCmd>, cmds: Seq<FrameCmd>) -> Seq<FrameCmd>
    decreases cmds.len(),
{
    if cmds.len() == 0 {
        queue
    } else {
        given(queue, cmds.drop_last()).push(cmds.last())
    }
}

/// Commands come out in the order in which they went in.
pub proof fn commands_keep_their_order(queue: Seq<FrameCmd>, cmds: Seq<FrameCmd>)
    ensures
        given(queue, cmds) == queue + cmds,
    decreases cmds.len(),
{
    if cmds.len() > 0 {
        commands_keep_their_order(queue, cmds.drop_last());
        assert(queue + cmds =~= (queue + cmds.drop_last()).push(cmds.last()));
    } else {
        assert(queue + cmds =~= queue);
    }
}

/// A frame is taken if it has four bytes for each of its pixels.
pub proof fn frames_have_four_bytes_to_a_pixel(f: PendingFrame)
    requires
        f.width * f.height * 4 <= u32::MAX,
    ensures
        frame_ok(f) <==> f.rgba@.len() == 4 * (f.width * f.height),
{
}

} // verus!
