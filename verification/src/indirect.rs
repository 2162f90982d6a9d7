//! Indirect draw commands and the bindless texture array.

use vstd::prelude::*;

use crate::scissors::Rect2D;

verus! {

/// One draw, as the device reads it from memory: four words.
#[derive(Debug, Clone, Copy, PartialEq, Eq, Structural)]
pub struct DrawIndirectCommand {
    pub vertex_count: u32,
    pub instance_count: u32,
    pub first_vertex: u32,
    pub first_instance: u32,
}

/// Bytes of a draw command.
pub const COMMAND_SIZE: u64 = 16;

/// Draw commands in memory that the device reads.
#[derive(Debug)]
pub struct DrawIndirectBuffer {
    pub capacity: usize,
    pub commands: Vec<DrawIndirectCommand>,
}

/// The larger one.
pub open spec fn larger(a: int, b: int) -> int {
    if a < b {
        b
    } else {
        a
    }
}

impl DrawIndirectBuffer {
    /// Capacity of the buffer of a new renderer.
    pub const DEFAULT_CAPACITY: usize = 256;

    /// The commands fit.
    pub open spec fn wf(&self) -> bool {
        &&& self.commands@.len() <= self.capacity
        &&& 16 <= self.capacity
    }

    /// An empty buffer for at least 16 commands.
    pub fn new(initial_capacity: usize) -> (buffer: DrawIndirectBuffer)
        ensures
            buffer.wf(),
            buffer.commands@.len() == 0,
            buffer.capacity == larger(initial_capacity as int, 16),
    {
        let capacity: usize = if initial_capacity < 16 {
            16
        } else {
            initial_capacity
        };
        DrawIndirectBuffer { capacity, commands: Vec::new() }
    }

    /// Size of the memory for the commands.
    pub fn byte_size(&self) -> (size: u64)
        requires
            self.capacity * 16 <= u64::MAX,
        ensures
            size == self.capacity * 16,
    {
        self.capacity as u64 * COMMAND_SIZE
    }

    /// Capacity of a larger buffer, if a number of commands does not fit: twice the present one,
    /// or more if that is needed.
    pub open spec fn growth(&self, required: nat) -> Option<int> {
        if required <= self.capacity {
            None
        } else {
            Some(larger(self.capacity * 2, required as int))
        }
    }

    /// See [`DrawIndirectBuffer::growth`].
    pub fn plan_growth(&self, required: usize) -> (capacity: Option<usize>)
        requires
            self.capacity * 2 <= usize::MAX,
        ensures
            match (capacity, self.growth(required as nat)) {
                (Some(a), Some(b)) => a == b,
                (None, None) => true,
                _ => false,
            },
    {
        if required <= self.capacity {
            None
        } else {
            let doubled: usize = self.capacity * 2;
            Some(
                if doubled < required {
                    required
                } else {
                    doubled
                },
            )
        }
    }

    /// Makes room for a number of commands; what has been written stays.
    pub fn ensure_capacity(&mut self, required: usize)
        requires
            old(self).wf(),
            old(self).capacity * 2 <= usize::MAX,
        ensures
            final(self).wf(),
            final(self).capacity >= required,
            final(self).commands@ == old(self).commands@,
            final(self).capacity == match old(self).growth(required as nat) {
                Some(capacity) => capacity,
                None => old(self).capacity as int,
            },
    {
        if let Some(capacity) = self.plan_growth(required) {
            self.capacity = capacity;
        }
    }

    /// Appends commands; returns where they start, in bytes.
    pub fn write_commands(&mut self, commands: &Vec<DrawIndirectCommand>) -> (offset: u64)
        requires
            old(self).wf(),
            old(self).capacity * 2 <= usize::MAX,
            old(self).commands@.len() + commands@.len() <= usize::MAX,
            old(self).commands@.len() * 16 <= u64::MAX,
        ensures
            final(self).wf(),
            offset == old(self).commands@.len() * 16,
            final(self).commands@ == old(self).commands@ + commands@,
            final(self).capacity == match old(self).growth(
                old(self).commands@.len() + commands@.len(),
            ) {
                Some(capacity) => capacity,
                None => old(self).capacity as int,
            },
    {
        let start: usize = self.commands.len();
        self.ensure_capacity(start + commands.len());
        let offset: u64 = start as u64 * COMMAND_SIZE;
        let ghost before = self.commands@;
        let mut i: usize = 0;
        while i < commands.len()
            invariant
                i <= commands.len(),
                self.commands@ == before + commands@.take(i as int),
                self.capacity >= before.len() + commands@.len(),
                16 <= self.capacity,
                self.capacity == match old(self).growth(
                    old(self).commands@.len() + commands@.len(),
                ) {
                    Some(capacity) => capacity,
                    None => old(self).capacity as int,
                },
            decreases commands.len() - i,
        {
            self.commands.push(commands[i]);
            i = i + 1;
            assert(self.commands@ =~= before + commands@.take(i as int));
        }
        assert(commands@.take(i as int) =~= commands@);
        offset
    }

    /// Appends a command; returns where it starts, in bytes.
    pub fn push(&mut self, command: DrawIndirectCommand) -> (offset: u64)
        requires
            old(self).wf(),
            old(self).capacity * 2 <= usize::MAX,
            old(self).commands@.len() < usize::MAX,
            old(self).commands@.len() * 16 <= u64::MAX,
        ensures
            final(self).wf(),
            offset == old(self).commands@.len() * 16,
            final(self).commands@ == old(self).commands@.push(command),
            final(self).capacity == match old(self).growth(old(self).commands@.len() + 1) {
                Some(capacity) => capacity,
                None => old(self).capacity as int,
            },
    {
        let start: usize = self.commands.len();
        self.ensure_capacity(start + 1);
        self.commands.push(command);
        start as u64 * COMMAND_SIZE
    }

    /// Forgets the commands and keeps the memory.
    pub fn clear(&mut self)
        requires
            old(self).wf(),
        ensures
            final(self).wf(),
            final(self).commands@.len() == 0,
            final(self).capacity == old(self).capacity,
    {
        self.commands.clear();
    }

    /// Starts over at the beginning of the memory.
    pub fn reset(&mut self)
        requires
            old(self).wf(),
        ensures
            final(self).wf(),
            final(self).commands@.len() == 0,
            final(self).capacity == old(self).capacity,
    {
        self.commands.clear();
    }

    /// Number of commands.
    pub fn len(&self) -> (n: u32)
        requires
            self.commands@.len() <= u32::MAX,
        ensures
            n == self.commands@.len(),
    {
        self.commands.len() as u32
    }

    /// Whether there are no commands.
    pub fn is_empty(&self) -> (r: bool)
        ensures
            r == (self.commands@.len() == 0),
    {
        self.commands.len() == 0
    }

    /// Bytes between commands.
    pub fn stride(&self) -> (n: u32)
        ensures
            n == 16,
    {
        16
    }
}

/// A quad that is drawn in a scissor rectangle: by the command at an offset, or directly.
#[derive(Debug, Clone, Copy, PartialEq, Eq, Structural)]
pub struct QuadDraw {
    pub scissor: Rect2D,
    pub offset: Option<u64>,
}

/// A command that draws a quad.
pub open spec fn quad_command(i: int) -> DrawIndirectCommand {
    DrawIndirectCommand {
        vertex_count: 6,
        instance_count: 1,
        first_vertex: 0,
        first_instance: i as u32,
    }
}

/// Commands for a number of quads.
pub open spec fn quad_commands(n: nat) -> Seq<DrawIndirectCommand> {
    Seq::new(n, |i: int| quad_command(i))
}

/// Draws a quad in each scissor rectangle directly.
pub open spec fn direct_quads(scissors: Seq<Rect2D>) -> Seq<QuadDraw> {
    Seq::new(scissors.len(), |i: int| QuadDraw { scissor: scissors[i], offset: None })
}

/// Draws a quad in each scissor rectangle by commands that start at an offset.
pub open spec fn indirect_quads(scissors: Seq<Rect2D>, base: nat) -> Seq<QuadDraw> {
    Seq::new(
        scissors.len(),
        |i: int| QuadDraw { scissor: scissors[i], offset: Some((base + 16 * i) as u64) },
    )
}

/// Draws quads without a buffer of commands.
pub fn draw_quads_directly(scissors: &Vec<Rect2D>) -> (draws: Vec<QuadDraw>)
    ensures
        draws@ == direct_quads(scissors@),
{
    let mut draws: Vec<QuadDraw> = Vec::new();
    let mut i: usize = 0;
    while i < scissors.len()
        invariant
            i <= scissors.len(),
            draws@ == direct_quads(scissors@).take(i as int),
        decreases scissors.len() - i,
    {
        draws.push(QuadDraw { scissor: scissors[i], offset: None });
        i = i + 1;
        assert(draws@ =~= direct_quads(scissors@).take(i as int));
    }
    assert(draws@ =~= direct_quads(scissors@));
    draws
}

/// Draws quads through a buffer of commands, which is extended by one command for each.
pub fn draw_quads(buffer: &mut DrawIndirectBuffer, scissors: &Vec<Rect2D>) -> (draws: Vec<QuadDraw>)
    requires
        old(buffer).wf(),
        old(buffer).capacity * 2 <= usize::MAX,
        old(buffer).commands@.len() + scissors@.len() <= usize::MAX,
        (old(buffer).commands@.len() + scissors@.len()) * 16 <= u64::MAX,
        scissors@.len() <= u32::MAX,
    ensures
        final(buffer).wf(),
        draws@ == indirect_quads(scissors@, old(buffer).commands@.len() * 16),
        final(buffer).commands@ == old(buffer).commands@ + quad_commands(scissors@.len()),
        final(buffer).capacity == match old(buffer).growth(
            old(buffer).commands@.len() + scissors@.len(),
        ) {
            Some(capacity) => capacity,
            None => old(buffer).capacity as int,
        },
{
    let mut commands: Vec<DrawIndirectCommand> = Vec::new();
    let mut i: usize = 0;
    while i < scissors.len()
        invariant
            i <= scissors.len() <= u32::MAX,
            commands@ == quad_commands(i as nat),
        decreases scissors.len() - i,
    {
        commands.push(
            DrawIndirectCommand {
                vertex_count: 6,
                instance_count: 1,
                first_vertex: 0,
                first_instance: i as u32,
            },
        );
        i = i + 1;
        assert(commands@ =~= quad_commands(i as nat));
    }
    let ghost start = buffer.commands@.len();
    let base: u64 = buffer.write_commands(&commands);
    let mut draws: Vec<QuadDraw> = Vec::new();
    let mut offset: u64 = base;
    let mut k: usize = 0;
    while k < scissors.len()
        invariant
            k <= scissors.len(),
            base == start * 16,
            offset == base + 16 * k,
            (start + scissors@.len()) * 16 <= u64::MAX,
            draws@ == indirect_quads(scissors@, start * 16).take(k as int),
        decreases scissors.len() - k,
    {
        draws.push(QuadDraw { scissor: scissors[k], offset: Some(offset) });
        k = k + 1;
        offset = offset + 16;
        assert(draws@ =~= indirect_quads(scissors@, start * 16).take(k as int));
    }
    assert(draws@ =~= indirect_quads(scissors@, start * 16));
    draws
}

/// Whichever way quads are drawn, each scissor rectangle gets one draw, in the same order; and
/// with a buffer each draw reads the command that was written for it.
pub proof fn law_every_scissor_is_drawn_once(
    scissors: Seq<Rect2D>,
    commands: Seq<DrawIndirectCommand>,
    i: int,
)
    requires
        0 <= i < scissors.len(),
        (commands.len() + scissors.len()) * 16 <= u64::MAX,
        scissors.len() <= u32::MAX,
    ensures
        direct_quads(scissors).len() == scissors.len(),
        direct_quads(scissors)[i].scissor == scissors[i],
        indirect_quads(scissors, commands.len() * 16).len() == scissors.len(),
        indirect_quads(scissors, commands.len() * 16)[i].scissor == scissors[i],
        ({
            let at = indirect_quads(scissors, commands.len() * 16)[i].offset->Some_0 as int / 16;
            (commands + quad_commands(scissors.len()))[at] == quad_command(i)
        }),
{
    let offset = commands.len() * 16 + 16 * i;
    assert(offset / 16 == commands.len() + i);
}

/// The texture array of the bindless shaders.
#[derive(Debug, Clone, Copy, PartialEq, Eq, Structural)]
pub struct BindlessDescriptorPool {
    pub max_textures: u32,
}

impl BindlessDescriptorPool {
    /// Slots of the array of a new renderer.
    pub const DEFAULT_MAX_TEXTURES: u32 = 1024;

    /// An array of at least 64 slots.
    pub fn new(max_textures: u32) -> (pool: BindlessDescriptorPool)
        ensures
            pool.max_textures == larger(max_textures as int, 64),
    {
        BindlessDescriptorPool {
            max_textures: if max_textures < 64 {
                64
            } else {
                max_textures
            },
        }
    }

    pub fn max_textures(&self) -> (n: u32)
        ensures
            n == self.max_textures,
    {
        self.max_textures
    }

    /// Whether a slot can be set; beyond the last one the array is out of memory.
    pub fn update_texture(&self, slot: u32) -> (r: bool)
        ensures
            r == (slot < self.max_textures),
    {
        slot < self.max_textures
    }
}

} // verus!
