//! The key under which an extracted palette is cached.

use vstd::prelude::*;
use crate::config::PaletteConfig;
use crate::palette::Reduction;

verus! {

/// The BLAKE3 digest of `data`, in lower-case hexadecimal.
pub uninterp spec fn blake3_hex(data: Seq<u8>) -> Seq<char>;

/// The BLAKE3 digest of `data` (`blake3::hash`) in lower-case hexadecimal
/// (`Hash::to_hex`): 64 characters from `0123456789abcdef`. Which
/// characters they are is named `blake3_hex` and not stated here.
#[verifier::external_body]
fn blake3_hex_digest(data: &[u8]) -> (r: String)
    ensures
        r@ == blake3_hex(data@),
        r@.len() == 64,
        forall|i: int|
            0 <= i < r@.len() ==> ('0' <= #[trigger] r@[i] <= '9' || 'a' <= r@[i] <= 'f'),
{
    blake3::hash(data).to_hex().to_string()
}

/// The bytes that open every hashed message: `wallfetch-palette-v1` and a
/// zero byte.
pub open spec fn hash_tag() -> Seq<u8> {
    seq![
        // w a l l f e t c h - p a l e t t e - v 1 NUL
        119u8, 97u8, 108u8, 108u8, 102u8, 101u8, 116u8, 99u8, 104u8, 45u8, 112u8, 97u8, 108u8, 101u8, 116u8, 116u8, 101u8, 45u8, 118u8, 49u8, 0u8,
    ]
}

/// The `n` least significant bytes of `x`, least significant first.
pub open spec fn le_bytes(x: nat, n: nat) -> Seq<u8>
    decreases n,
{
    if n == 0 {
        seq![]
    } else {
        seq![(x % 256) as u8] + le_bytes(x / 256, (n - 1) as nat)
    }
}

/// The number of bytes of a `usize`.
pub open spec fn usize_bytes() -> nat {
    (usize::BITS / 8) as nat
}

/// The byte that stands for a reduction method.
pub open spec fn reduction_code(r: Reduction) -> u8 {
    match r {
        Reduction::Resample => 0,
        Reduction::Mean => 1,
    }
}

/// The message whose digest keys the palette cache: the tag, the wallpaper
/// file's bytes, the two counts, the bits of the threshold and the
/// reduction method.
pub open spec fn hash_message(wallpaper: Seq<u8>, config: PaletteConfig) -> Seq<u8> {
    hash_tag() + wallpaper + le_bytes(config.source_count as nat, usize_bytes()) + le_bytes(
        config.color_count as nat,
        usize_bytes(),
    ) + le_bytes(config.background_threshold_bits as nat, 8) + seq![reduction_code(config.reduction)]
}

fn push_le_bytes(out: &mut Vec<u8>, x: u64, n: u32)
    ensures
        final(out)@ == old(out)@ + le_bytes(x as nat, n as nat),
    decreases n,
{
    if n > 0 {
        out.push((x % 256) as u8);
        push_le_bytes(out, x / 256, n - 1);
        assert(out@ =~= old(out)@ + le_bytes(x as nat, n as nat));
    }
}

/// The key of the cached palette of a wallpaper, given the bytes of the
/// wallpaper file and the palette settings.
pub fn palette_hash(wallpaper: &[u8], config: &PaletteConfig) -> (r: String)
    ensures
        r@ == blake3_hex(hash_message(wallpaper@, *config)),
        r@.len() == 64,
        forall|i: int|
            0 <= i < r@.len() ==> ('0' <= #[trigger] r@[i] <= '9' || 'a' <= r@[i] <= 'f'),
{
    let mut message: Vec<u8> = Vec::new();
    let tag: [u8; 21] = [
        // w a l l f e t c h - p a l e t t e - v 1 NUL
        119u8, 97u8, 108u8, 108u8, 102u8, 101u8, 116u8, 99u8, 104u8, 45u8, 112u8, 97u8, 108u8, 101u8, 116u8, 116u8, 101u8, 45u8, 118u8, 49u8, 0u8,
    ];
    let mut i: usize = 0;
    while i < 21
        invariant
            i <= 21,
            tag@ == hash_tag(),
            message@ == hash_tag().take(i as int),
        decreases 21 - i,
    {
        message.push(tag[i]);
        i += 1;
        assert(message@ =~= hash_tag().take(i as int));
    }
    let mut k: usize = 0;
    while k < wallpaper.len()
        invariant
            k <= wallpaper@.len(),
            message@ == hash_tag() + wallpaper@.take(k as int),
        decreases wallpaper.len() - k,
    {
        message.push(wallpaper[k]);
        k += 1;
        assert(message@ =~= hash_tag() + wallpaper@.take(k as int));
    }
    assert(wallpaper@.take(wallpaper@.len() as int) =~= wallpaper@);
    push_le_bytes(&mut message, config.source_count as u64, usize::BITS / 8);
    push_le_bytes(&mut message, config.color_count as u64, usize::BITS / 8);
    push_le_bytes(&mut message, config.background_threshold_bits, 8);
    let code: u8 = match config.reduction {
        Reduction::Resample => 0,
        Reduction::Mean => 1,
    };
    message.push(code);
    assert(message@ =~= hash_message(wallpaper@, *config));
    blake3_hex_digest(message.as_slice())
}

/// `x` can be written in `n` bytes.
pub open spec fn fits_in_bytes(x: nat, n: nat) -> bool
    decreases n,
{
    if n == 0 {
        x == 0
    } else {
        fits_in_bytes(x / 256, (n - 1) as nat)
    }
}

proof fn lemma_le_bytes_injective(x: nat, y: nat, n: nat)
    requires
        fits_in_bytes(x, n),
        fits_in_bytes(y, n),
        le_bytes(x, n) == le_bytes(y, n),
    ensures
        x == y,
    decreases n,
{
    if n > 0 {
        assert(le_bytes(x, n)[0] == (x % 256) as u8);
        assert(le_bytes(y, n)[0] == (y % 256) as u8);
        assert(le_bytes(x, n)[0] == le_bytes(y, n)[0]);
        assert((x % 256) as u8 == x % 256);
        assert((y % 256) as u8 == y % 256);
        assert(x % 256 == y % 256);
        assert(le_bytes(x, n).drop_first() =~= le_bytes(x / 256, (n - 1) as nat));
        assert(le_bytes(y, n).drop_first() =~= le_bytes(y / 256, (n - 1) as nat));
        lemma_le_bytes_injective(x / 256, y / 256, (n - 1) as nat);
    }
}

proof fn lemma_fits_u32(x: nat)
    requires
        x <= u32::MAX,
    ensures
        fits_in_bytes(x, 4),
{
    reveal_with_fuel(fits_in_bytes, 5);
    assert(x / 256 / 256 / 256 / 256 == 0);
}

proof fn lemma_fits_u64(x: nat)
    requires
        x <= u64::MAX,
    ensures
        fits_in_bytes(x, 8),
{
    reveal_with_fuel(fits_in_bytes, 9);
    assert(x / 256 / 256 / 256 / 256 / 256 / 256 / 256 / 256 == 0);
}

proof fn lemma_fits_usize(x: nat)
    requires
        x <= usize::MAX,
    ensures
        fits_in_bytes(x, usize_bytes()),
{
    if usize::BITS == 32 {
        lemma_fits_u32(x);
    } else {
        lemma_fits_u64(x);
    }
}

/// Equal hashed messages come from the same wallpaper bytes and settings.
proof fn lemma_hash_message_injective(
    wallpaper1: Seq<u8>,
    config1: PaletteConfig,
    wallpaper2: Seq<u8>,
    config2: PaletteConfig,
)
    requires
        hash_message(wallpaper1, config1) == hash_message(wallpaper2, config2),
    ensures
        wallpaper1 == wallpaper2,
        config1.source_count == config2.source_count,
        config1.color_count == config2.color_count,
        config1.background_threshold_bits == config2.background_threshold_bits,
        config1.reduction == config2.reduction,
{
    let m1 = hash_message(wallpaper1, config1);
    let m2 = hash_message(wallpaper2, config2);
    let w: int = usize_bytes() as int;
    let t: int = hash_tag().len() as int;
    lemma_le_bytes_len(config1.source_count as nat, w as nat);
    lemma_le_bytes_len(config2.source_count as nat, w as nat);
    lemma_le_bytes_len(config1.color_count as nat, w as nat);
    lemma_le_bytes_len(config2.color_count as nat, w as nat);
    lemma_le_bytes_len(config1.background_threshold_bits as nat, 8);
    lemma_le_bytes_len(config2.background_threshold_bits as nat, 8);
    assert(m1.len() == t + wallpaper1.len() + 2 * w + 9);
    assert(m2.len() == t + wallpaper2.len() + 2 * w + 9);
    assert(wallpaper1.len() == wallpaper2.len());
    let l: int = wallpaper1.len() as int;
    assert(wallpaper1 =~= m1.subrange(t, t + l));
    assert(wallpaper2 =~= m2.subrange(t, t + l));
    assert(le_bytes(config1.source_count as nat, w as nat) =~= m1.subrange(t + l, t + l + w));
    assert(le_bytes(config2.source_count as nat, w as nat) =~= m2.subrange(t + l, t + l + w));
    assert(le_bytes(config1.color_count as nat, w as nat) =~= m1.subrange(t + l + w, t + l + 2 * w));
    assert(le_bytes(config2.color_count as nat, w as nat) =~= m2.subrange(t + l + w, t + l + 2 * w));
    assert(le_bytes(config1.background_threshold_bits as nat, 8) =~= m1.subrange(
        t + l + 2 * w,
        t + l + 2 * w + 8,
    ));
    assert(le_bytes(config2.background_threshold_bits as nat, 8) =~= m2.subrange(
        t + l + 2 * w,
        t + l + 2 * w + 8,
    ));
    assert(m1.last() == reduction_code(config1.reduction));
    assert(m2.last() == reduction_code(config2.reduction));
    lemma_fits_usize(config1.source_count as nat);
    lemma_fits_usize(config2.source_count as nat);
    lemma_fits_usize(config1.color_count as nat);
    lemma_fits_usize(config2.color_count as nat);
    lemma_fits_u64(config1.background_threshold_bits as nat);
    lemma_fits_u64(config2.background_threshold_bits as nat);
    lemma_le_bytes_injective(config1.source_count as nat, config2.source_count as nat, w as nat);
    lemma_le_bytes_injective(config1.color_count as nat, config2.color_count as nat, w as nat);
    lemma_le_bytes_injective(
        config1.background_threshold_bits as nat,
        config2.background_threshold_bits as nat,
        8,
    );
}

proof fn lemma_le_bytes_len(x: nat, n: nat)
    ensures
        le_bytes(x, n).len() == n,
    decreases n,
{
    if n > 0 {
        lemma_le_bytes_len(x / 256, (n - 1) as nat);
    }
}

/// The cache key covers the wallpaper and every extraction setting, and
/// nothing else: the hashed messages of two wallpapers and settings agree
/// exactly when the wallpaper bytes, both counts, the threshold's bits and
/// the reduction method agree. So the keys (BLAKE3 digests of the
/// messages, 64 lower-case hexadecimal digits each) agree when all of these
/// do, and differ whenever one of them differs, barring a BLAKE3 collision.
pub proof fn law_cache_key_covers_settings(
    wallpaper1: Seq<u8>,
    config1: PaletteConfig,
    wallpaper2: Seq<u8>,
    config2: PaletteConfig,
)
    ensures
        hash_message(wallpaper1, config1) == hash_message(wallpaper2, config2) <==> {
            &&& wallpaper1 == wallpaper2
            &&& config1.source_count == config2.source_count
            &&& config1.color_count == config2.color_count
            &&& config1.background_threshold_bits == config2.background_threshold_bits
            &&& config1.reduction == config2.reduction
        },
{
    if hash_message(wallpaper1, config1) == hash_message(wallpaper2, config2) {
        lemma_hash_message_injective(wallpaper1, config1, wallpaper2, config2);
    }
}

} // verus!
