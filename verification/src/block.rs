use vstd::prelude::*;

verus! {

/// A block value: a base block state name, optionally paired with an extra
/// block state layered onto the same position (used for waterlogged plants).
#[derive(Clone, Copy, PartialEq, Eq, Debug, Hash)]
pub struct Block {
    pub base_block: &'static str,
    pub extra_block: Option<&'static str>,
}

impl Block {
    pub fn new(base_block: &'static str, extra_block: Option<&'static str>) -> (r: Self)
        ensures
            r == (Block { base_block, extra_block }),
    {
        Block { base_block, extra_block }
    }
}

pub fn gravel() -> (r: Block)
    ensures
        r.base_block@ == "minecraft:gravel"@,
        r.extra_block is None,
{
    Block { base_block: "minecraft:gravel", extra_block: None }
}

pub fn deepslate() -> (r: Block)
    ensures
        r.base_block@ == "minecraft:deepslate"@,
        r.extra_block is None,
{
    Block { base_block: "minecraft:deepslate", extra_block: None }
}

pub fn bedrock() -> (r: Block)
    ensures
        r.base_block@ == "minecraft:bedrock"@,
        r.extra_block is None,
{
    Block { base_block: "minecraft:bedrock", extra_block: None }
}

pub fn water() -> (r: Block)
    ensures
        r.base_block@ == "minecraft:water"@,
        r.extra_block is None,
{
    Block { base_block: "minecraft:water", extra_block: None }
}

pub fn seagrass_short() -> (r: Block)
    ensures
        r.base_block@ == "minecraft:seagrass"@,
        r.extra_block matches Some(e) && e@ == "minecraft:water"@,
{
    Block { base_block: "minecraft:seagrass", extra_block: Some("minecraft:water") }
}

pub fn seagrass_tall_upper() -> (r: Block)
    ensures
        r.base_block@ == "minecraft:tall_seagrass[half=upper]"@,
        r.extra_block matches Some(e) && e@ == "minecraft:water"@,
{
    Block { base_block: "minecraft:tall_seagrass[half=upper]", extra_block: Some("minecraft:water") }
}

pub fn seagrass_tall_lower() -> (r: Block)
    ensures
        r.base_block@ == "minecraft:tall_seagrass[half=lower]"@,
        r.extra_block matches Some(e) && e@ == "minecraft:water"@,
{
    Block { base_block: "minecraft:tall_seagrass[half=lower]", extra_block: Some("minecraft:water") }
}

pub fn gray_concrete() -> (r: Block)
    ensures
        r.base_block@ == "minecraft:gray_concrete"@,
        r.extra_block is None,
{
    Block { base_block: "minecraft:gray_concrete", extra_block: None }
}

} // verus!
