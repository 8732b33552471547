use vstd::prelude::*;

verus! {

/// One palette entry: a color as red, green and blue, eight bits per channel.
#[derive(Clone, Copy, PartialEq, Eq, Structural, Debug)]
pub struct Rgb {
    pub r: u8,
    pub g: u8,
    pub b: u8,
}

/// Opaque black, the color a fresh palette is seeded with.
pub open spec fn black() -> Rgb {
    Rgb { r: 0, g: 0, b: 0 }
}

impl Default for Rgb {
    fn default() -> (c: Rgb)
        ensures
            c == black(),
    {
        Rgb { r: 0, g: 0, b: 0 }
    }
}

/// A palette flattened to raw bytes: three per entry, red first.
pub open spec fn rgb_bytes(p: Seq<Rgb>) -> Seq<u8> {
    Seq::new(
        3 * p.len(),
        |i: int|
            if i % 3 == 0 {
                p[i / 3].r
            } else if i % 3 == 1 {
                p[i / 3].g
            } else {
                p[i / 3].b
            },
    )
}

/// Palette entries read back from raw bytes, three per entry; a trailing
/// fragment shorter than one entry is dropped.
pub open spec fn rgb_entries(bytes: Seq<u8>) -> Seq<Rgb> {
    Seq::new(
        (bytes.len() / 3) as nat,
        |i: int| (Rgb { r: bytes[3 * i], g: bytes[3 * i + 1], b: bytes[3 * i + 2] }),
    )
}

/// Flatten a palette to its raw bytes.
pub fn palette_to_bytes(p: &Vec<Rgb>) -> (r: Vec<u8>)
    ensures
        r@ == rgb_bytes(p@),
{
    let mut out: Vec<u8> = Vec::new();
    let mut i: usize = 0;
    while i < p.len()
        invariant
            i <= p.len(),
            out@.len() == 3 * i,
            forall|k: int|
                0 <= k < out@.len() ==> out@[k] == #[trigger] rgb_bytes(p@)[k],
        decreases p.len() - i,
    {
        let c = p[i];
        out.push(c.r);
        out.push(c.g);
        out.push(c.b);
        proof {
            assert forall|k: int| 3 * i <= k < 3 * (i + 1) implies out@[k] == rgb_bytes(p@)[k] by {
                vstd::arithmetic::div_mod::lemma_fundamental_div_mod_converse_div(k, 3, i as int, k - 3 * i);
                vstd::arithmetic::div_mod::lemma_fundamental_div_mod_converse_mod(k, 3, i as int, k - 3 * i);
            }
        }
        i = i + 1;
    }
    proof {
        assert(out@ =~= rgb_bytes(p@));
    }
    out
}

/// Read a palette back from raw bytes.
pub fn palette_from_bytes(bytes: &Vec<u8>) -> (r: Vec<Rgb>)
    ensures
        r@ == rgb_entries(bytes@),
{
    let mut out: Vec<Rgb> = Vec::new();
    let n = bytes.len() / 3;
    let mut i: usize = 0;
    proof {
        vstd::arithmetic::div_mod::lemma_remainder_lower(bytes@.len() as int, 3);
    }
    while i < n
        invariant
            i <= n,
            n == bytes@.len() / 3,
            3 * n <= bytes@.len(),
            bytes@.len() <= usize::MAX,
            out@.len() == i,
            forall|k: int|
                0 <= k < out@.len() ==> out@[k] == #[trigger] rgb_entries(bytes@)[k],
        decreases n - i,
    {
        let e = Rgb { r: bytes[3 * i], g: bytes[3 * i + 1], b: bytes[3 * i + 2] };
        out.push(e);
        i = i + 1;
    }
    proof {
        assert(out@ =~= rgb_entries(bytes@));
    }
    out
}

} // verus!
