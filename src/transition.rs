use vstd::prelude::*;

verus! {

/// One step of a level-indexed table: from dungeon level `level` on, the value is `value`.
#[derive(Clone, Copy, Debug, PartialEq, Eq, Structural)]
pub struct Transition {
    pub level: u32,
    pub value: u32,
}

/// The value of the last entry whose level is at most `level`, or 0 when there is none.
pub open spec fn step_value(table: Seq<Transition>, level: u32) -> u32
    decreases table.len(),
{
    if table.len() == 0 {
        0
    } else if table.last().level <= level {
        table.last().value
    } else {
        step_value(table.drop_last(), level)
    }
}

/// Looks up a level-indexed step table: the value of the last entry whose level does not
/// exceed `level`, 0 when none does.
pub fn from_map_level(table: &[Transition], level: u32) -> (r: u32)
    ensures
        r == step_value(table@, level),
{
    let mut i: usize = table.len();
    assert(table@.subrange(0, i as int) =~= table@);
    while i > 0
        invariant
            i <= table@.len(),
            step_value(table@, level) == step_value(table@.subrange(0, i as int), level),
        decreases i,
    {
        let t = table[i - 1];
        assert(table@.subrange(0, i as int).drop_last() =~= table@.subrange(0, i - 1));
        if level >= t.level {
            return t.value;
        }
        i = i - 1;
    }
    0
}

} // verus!
