//! Content-store payload framing.
//!
//! A palette-table snapshot is stored as one blob: a kind byte that no
//! object record can start with, then the table's entries. Two videos whose
//! palette tables hold identical entries therefore share one blob.

use vstd::prelude::*;

verus! {

/// Kind byte of a palette-table snapshot. No canonical object record can
/// begin with it (object tags are `0x01`, `0x02`, `0x05` and `0x07`), so a
/// snapshot and an object record cannot share a content id.
pub const PALETTE_SNAPSHOT_KIND: u8 = 0xE0;

/// Canonical payload of a palette-table snapshot: the kind byte, then the
/// entries unchanged.
pub fn palette_snapshot(entries: &[u8]) -> (r: Vec<u8>)
    ensures
        r@ == seq![PALETTE_SNAPSHOT_KIND] + entries@,
{
    let mut out: Vec<u8> = Vec::new();
    out.push(PALETTE_SNAPSHOT_KIND);
    let mut i = 0usize;
    while i < entries.len()
        invariant
            i <= entries@.len(),
            out@ == seq![PALETTE_SNAPSHOT_KIND] + entries@.subrange(0, i as int),
        decreases entries@.len() - i,
    {
        out.push(entries[i]);
        i = i + 1;
        proof {
            assert(out@ =~= seq![PALETTE_SNAPSHOT_KIND] + entries@.subrange(0, i as int));
        }
    }
    proof {
        assert(entries@.subrange(0, entries@.len() as int) =~= entries@);
    }
    out
}

/// Equal snapshots come only from equal entry tables.
pub proof fn lemma_palette_snapshot_injective(a: Seq<u8>, b: Seq<u8>)
    requires
        seq![PALETTE_SNAPSHOT_KIND] + a == seq![PALETTE_SNAPSHOT_KIND] + b,
    ensures
        a == b,
{
    let sa = seq![PALETTE_SNAPSHOT_KIND] + a;
    let sb = seq![PALETTE_SNAPSHOT_KIND] + b;
    assert(sa.len() == a.len() + 1 && sb.len() == b.len() + 1);
    assert(a.len() == b.len());
    assert(a =~= (seq![PALETTE_SNAPSHOT_KIND] + a).subrange(1, a.len() + 1int));
    assert(b =~= (seq![PALETTE_SNAPSHOT_KIND] + b).subrange(1, b.len() + 1int));
}

} // verus!
