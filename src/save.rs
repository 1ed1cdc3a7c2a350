use vstd::prelude::*;

verus! {

/// How far each byte is moved to land in printable text.
pub const SHIFT: u8 = 33;

/// Every byte moved up by `SHIFT`, or `None` if one would pass 255.
pub fn encode_save(bytes: &[u8]) -> (r: Option<Vec<u8>>)
    ensures
        r is Some <==> (forall|k: int| 0 <= k < bytes@.len() ==> bytes@[k] + SHIFT <= u8::MAX),
        r is Some ==> r->0@ == Seq::new(bytes@.len(), |k: int| (bytes@[k] + SHIFT) as u8),
{
    let mut out: Vec<u8> = Vec::new();
    let mut i: usize = 0;
    while i < bytes.len()
        invariant
            i <= bytes@.len(),
            out@ == Seq::new(i as nat, |k: int| (bytes@[k] + SHIFT) as u8),
            forall|k: int| 0 <= k < i ==> bytes@[k] + SHIFT <= u8::MAX,
        decreases bytes@.len() - i,
    {
        let b = bytes[i];
        if b > u8::MAX - SHIFT {
            return None;
        }
        out.push(b + SHIFT);
        i = i + 1;
        assert(out@ =~= Seq::new(i as nat, |k: int| (bytes@[k] + SHIFT) as u8));
    }
    Some(out)
}

/// Every byte moved down by `SHIFT`, or `None` if one lies below it.
pub fn decode_save(text: &[u8]) -> (r: Option<Vec<u8>>)
    ensures
        r is Some <==> (forall|k: int| 0 <= k < text@.len() ==> text@[k] >= SHIFT),
        r is Some ==> r->0@ == Seq::new(text@.len(), |k: int| (text@[k] - SHIFT) as u8),
{
    let mut out: Vec<u8> = Vec::new();
    let mut i: usize = 0;
    while i < text.len()
        invariant
            i <= text@.len(),
            out@ == Seq::new(i as nat, |k: int| (text@[k] - SHIFT) as u8),
            forall|k: int| 0 <= k < i ==> text@[k] >= SHIFT,
        decreases text@.len() - i,
    {
        let b = text[i];
        if b < SHIFT {
            return None;
        }
        out.push(b - SHIFT);
        i = i + 1;
        assert(out@ =~= Seq::new(i as nat, |k: int| (text@[k] - SHIFT) as u8));
    }
    Some(out)
}

/// Moving bytes down undoes moving them up.
pub proof fn lemma_save_round_trip(bytes: Seq<u8>)
    requires
        forall|k: int| 0 <= k < bytes.len() ==> bytes[k] + SHIFT <= u8::MAX,
    ensures
        Seq::new(
            bytes.len(),
            |k: int| (Seq::new(bytes.len(), |j: int| (bytes[j] + SHIFT) as u8)[k] - SHIFT) as u8,
        ) == bytes,
{
    assert(Seq::new(
        bytes.len(),
        |k: int| (Seq::new(bytes.len(), |j: int| (bytes[j] + SHIFT) as u8)[k] - SHIFT) as u8,
    ) =~= bytes);
}

} // verus!
