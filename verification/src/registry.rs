use vstd::prelude::*;
use crate::block::{Block, Face, TextureCoords};
use crate::identifier::{all_valid, lemma_parse_round_trip, Identifier, IdentifierError};

verus! {

/// Whether `block` goes by `namespace` and `name`.
pub open spec fn goes_by(block: Block, namespace: Seq<char>, name: Seq<char>) -> bool {
    block.identifier().namespace() == namespace && block.identifier().name() == name
}

/// The place in `blocks` of the first block that goes by `namespace` and
/// `name`, or the length of `blocks` if none does.
pub open spec fn first_match(blocks: Seq<Block>, namespace: Seq<char>, name: Seq<char>) -> int
    decreases blocks.len(),
{
    if blocks.len() == 0 || goes_by(blocks[0], namespace, name) {
        0
    } else {
        1 + first_match(blocks.drop_first(), namespace, name)
    }
}

pub proof fn lemma_first_match(blocks: Seq<Block>, namespace: Seq<char>, name: Seq<char>)
    ensures
        0 <= first_match(blocks, namespace, name) <= blocks.len(),
        first_match(blocks, namespace, name) < blocks.len() ==> goes_by(
            blocks[first_match(blocks, namespace, name)],
            namespace,
            name,
        ),
        forall|i: int|
            0 <= i < first_match(blocks, namespace, name) ==> !goes_by(
                #[trigger] blocks[i],
                namespace,
                name,
            ),
    decreases blocks.len(),
{
    if blocks.len() == 0 || goes_by(blocks[0], namespace, name) {
    } else {
        let rest = blocks.drop_first();
        lemma_first_match(rest, namespace, name);
        assert forall|i: int| 0 <= i < first_match(blocks, namespace, name) implies !goes_by(
            #[trigger] blocks[i],
            namespace,
            name,
        ) by {
            if i > 0 {
                assert(blocks[i] == rest[i - 1]);
            }
        }
    }
}

/// The first block without a match before it is the first match.
pub proof fn lemma_first_match_is(
    blocks: Seq<Block>,
    namespace: Seq<char>,
    name: Seq<char>,
    at: int,
)
    requires
        0 <= at <= blocks.len(),
        forall|i: int| 0 <= i < at ==> !goes_by(#[trigger] blocks[i], namespace, name),
        at < blocks.len() ==> goes_by(blocks[at], namespace, name),
    ensures
        first_match(blocks, namespace, name) == at,
{
    lemma_first_match(blocks, namespace, name);
    let found = first_match(blocks, namespace, name);
    if found < at {
    } else if found > at {
    }
}

/// The kinds of block that a world knows, in the order in which they were
/// registered.
pub struct Registry {
    blocks: Vec<Block>,
}

impl Registry {
    /// The registered blocks, oldest first.
    pub closed spec fn blocks(&self) -> Seq<Block> {
        self.blocks@
    }

    /// The block that goes by `namespace` and `name`: the oldest such one.
    pub open spec fn resolve_name(&self, namespace: Seq<char>, name: Seq<char>) -> Option<Block> {
        let at = first_match(self.blocks(), namespace, name);
        if at < self.blocks().len() {
            Some(self.blocks()[at])
        } else {
            None
        }
    }

    /// The block that `id` resolves to.
    pub open spec fn resolve(&self, id: Identifier) -> Option<Block> {
        self.resolve_name(id.namespace(), id.name())
    }

    /// Every registered block has a valid identifier.
    pub open spec fn wf(&self) -> bool {
        forall|i: int|
            0 <= i < self.blocks().len() ==> (#[trigger] self.blocks()[i]).identifier().is_valid()
    }

    pub fn new() -> (registry: Self)
        ensures
            registry.blocks() == Seq::<Block>::empty(),
            registry.wf(),
    {
        Self { blocks: Vec::new() }
    }

    /// Registers `block` if its identifier is valid.
    pub fn register_block(&mut self, block: Block) -> (registered: Result<(), IdentifierError>)
        requires
            old(self).wf(),
        ensures
            final(self).wf(),
            registered == if !all_valid(block.identifier().namespace()) {
                Err::<(), IdentifierError>(IdentifierError::InvalidNamespace)
            } else if !all_valid(block.identifier().name()) {
                Err::<(), IdentifierError>(IdentifierError::InvalidName)
            } else {
                Ok::<(), IdentifierError>(())
            },
            final(self).blocks() == if registered is Ok {
                old(self).blocks().push(block)
            } else {
                old(self).blocks()
            },
    {
        match block.get_identifier().validate() {
            Ok(()) => {
                self.blocks.push(block);
                assert forall|i: int| 0 <= i < self.blocks().len() implies (
                #[trigger] self.blocks()[i]).identifier().is_valid() by {
                    if i < old(self).blocks().len() {
                    }
                }
                Ok(())
            },
            Err(err) => Err(err),
        }
    }

    /// Looks `id` up.
    pub fn get_block(&self, id: &Identifier) -> (block: Option<Block>)
        ensures
            block == self.resolve(*id),
    {
        match self.find(id) {
            Some(block) => Some(block.clone()),
            None => None,
        }
    }

    /// Looks `id` up without copying the block.
    pub fn find(&self, id: &Identifier) -> (block: Option<&Block>)
        ensures
            match block {
                Some(found) => self.resolve(*id) == Some(*found),
                None => self.resolve(*id).is_none(),
            },
    {
        let mut i: usize = 0;
        while i < self.blocks.len()
            invariant
                i <= self.blocks.len(),
                forall|j: int|
                    0 <= j < i ==> !goes_by(#[trigger] self.blocks@[j], id.namespace(), id.name()),
            decreases self.blocks.len() - i,
        {
            if self.blocks[i].get_identifier().matches(id) {
                proof {
                    lemma_first_match_is(self.blocks@, id.namespace(), id.name(), i as int);
                }
                return Some(&self.blocks[i]);
            }
            i += 1;
        }
        proof {
            lemma_first_match_is(self.blocks@, id.namespace(), id.name(), i as int);
        }
        None
    }
}

/// Whether `block` is the block of the game that goes by `willekeurig` and
/// `name` and shows the face-sized rectangles at `top`, `bottom` and `side`
/// of the atlas on its top, on its bottom and on its four sides.
pub open spec fn is_game_block(
    block: Block,
    name: Seq<char>,
    top: (u32, u32),
    bottom: (u32, u32),
    side: (u32, u32),
) -> bool {
    &&& goes_by(block, "willekeurig"@, name)
    &&& forall|face: Face|
        block.texture(face) == match face {
            Face::Top => TextureCoords::at(top.0, top.1),
            Face::Bottom => TextureCoords::at(bottom.0, bottom.1),
            _ => TextureCoords::at(side.0, side.1),
        }
}

/// The blocks of the game are valid identifiers.
proof fn lemma_game_names()
    ensures
        all_valid("willekeurig"@),
        all_valid("grass_block"@),
        all_valid("dirt"@),
        all_valid("stone"@),
        "willekeurig:grass_block"@ == "willekeurig"@ + seq![':'] + "grass_block"@,
        "willekeurig:dirt"@ == "willekeurig"@ + seq![':'] + "dirt"@,
        "willekeurig:stone"@ == "willekeurig"@ + seq![':'] + "stone"@,
{
    reveal_strlit("willekeurig");
    reveal_strlit("grass_block");
    reveal_strlit("dirt");
    reveal_strlit("stone");
    reveal_strlit("willekeurig:grass_block");
    reveal_strlit("willekeurig:dirt");
    reveal_strlit("willekeurig:stone");
}

/// The registry of the game: grass, dirt and stone, in this order.
pub fn register_blocks() -> (registered: Result<Registry, IdentifierError>)
    ensures
        registered is Ok,
        registered->Ok_0.wf(),
        registered->Ok_0.blocks().len() == 3,
        is_game_block(registered->Ok_0.blocks()[0], "grass_block"@, (0, 0), (64, 0), (32, 0)),
        is_game_block(registered->Ok_0.blocks()[1], "dirt"@, (64, 0), (64, 0), (64, 0)),
        is_game_block(registered->Ok_0.blocks()[2], "stone"@, (0, 32), (0, 32), (0, 32)),
{
    proof {
        lemma_game_names();
        lemma_parse_round_trip("willekeurig"@, "grass_block"@);
        lemma_parse_round_trip("willekeurig"@, "dirt"@);
        lemma_parse_round_trip("willekeurig"@, "stone"@);
    }
    let mut grass_block = Block::new(Identifier::from_str("willekeurig:grass_block")?, 0, 0);
    let ghost plain = grass_block;
    grass_block.set_texture_bottom(64, 0);
    grass_block.set_side_textures(32, 0);
    proof {
        let bottom = plain.with_texture(Face::Bottom, TextureCoords::at(64, 0));
        let front = bottom.with_texture(Face::Front, TextureCoords::at(32, 0));
        let back = front.with_texture(Face::Back, TextureCoords::at(32, 0));
        let left = back.with_texture(Face::Left, TextureCoords::at(32, 0));
        assert forall|face: Face|
            grass_block.texture(face) == match face {
                Face::Top => TextureCoords::at(0, 0),
                Face::Bottom => TextureCoords::at(64, 0),
                _ => TextureCoords::at(32, 0),
            } by {
            plain.lemma_with_texture(Face::Bottom, TextureCoords::at(64, 0), face);
            bottom.lemma_with_texture(Face::Front, TextureCoords::at(32, 0), face);
            front.lemma_with_texture(Face::Back, TextureCoords::at(32, 0), face);
            back.lemma_with_texture(Face::Left, TextureCoords::at(32, 0), face);
            left.lemma_with_texture(Face::Right, TextureCoords::at(32, 0), face);
        }
        plain.lemma_with_texture(Face::Bottom, TextureCoords::at(64, 0), Face::Top);
        bottom.lemma_with_texture(Face::Front, TextureCoords::at(32, 0), Face::Top);
        front.lemma_with_texture(Face::Back, TextureCoords::at(32, 0), Face::Top);
        back.lemma_with_texture(Face::Left, TextureCoords::at(32, 0), Face::Top);
        left.lemma_with_texture(Face::Right, TextureCoords::at(32, 0), Face::Top);
    }

    let dirt = Block::new(Identifier::from_str("willekeurig:dirt")?, 64, 0);
    let stone = Block::new(Identifier::from_str("willekeurig:stone")?, 0, 32);

    let mut registry = Registry::new();

    registry.register_block(grass_block)?;

    registry.register_block(dirt)?;

    registry.register_block(stone)?;

    Ok(registry)
}

} // verus!
