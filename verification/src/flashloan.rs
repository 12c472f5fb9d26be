//! Flash-loan source routing.

use vstd::prelude::*;
use crate::abi::{
    address_array_tail, address_word, address_words, arg_word, bytes_tail, function_selector,
    holds_address, lemma_address_word_reads_back, lemma_address_words_read_back,
    lemma_bytes_tail_reads_back, lemma_value_words_read_back,
    push_address_array_tail, push_address_word, push_bytes_tail, push_u64_word,
    push_value_array_tail, push_value_word, selector, value_array_tail, value_words,
};
use crate::address::{Address, U256, be_value, lemma_u64_word_value, u64_word};

verus! {

/// Available flash-loan sources, cheapest premium first.
#[derive(Debug, Clone, Copy, PartialEq, Eq, Structural)]
pub enum FlashSource {
    /// Balancer vault: no premium.
    Balancer,
    /// Aave V3: 0.05% premium.
    AaveV3,
    /// Uniswap V3 pool flash: pool fee (representative 0.30%).
    UniswapV3,
}

/// The premium a source charges, in basis points.
pub open spec fn spec_premium_bps(s: FlashSource) -> u32 {
    match s {
        FlashSource::Balancer => 0,
        FlashSource::AaveV3 => 5,
        FlashSource::UniswapV3 => 30,
    }
}

impl FlashSource {
    /// Premium charged by this source, in basis points.
    pub fn premium_bps(self) -> (bps: u32)
        ensures
            bps == spec_premium_bps(self),
    {
        match self {
            FlashSource::Balancer => 0,
            FlashSource::AaveV3 => 5,
            FlashSource::UniswapV3 => 30,
        }
    }
}

impl FlashSource {
    /// Human-readable source name.
    pub fn name(self) -> (name: &'static str)
        ensures
            name@ == spec_source_name(self),
    {
        match self {
            FlashSource::Balancer => "balancer",
            FlashSource::AaveV3 => "aave-v3",
            FlashSource::UniswapV3 => "uniswap-v3",
        }
    }
}

/// The name of a source.
pub open spec fn spec_source_name(s: FlashSource) -> Seq<char> {
    match s {
        FlashSource::Balancer => "balancer"@,
        FlashSource::AaveV3 => "aave-v3"@,
        FlashSource::UniswapV3 => "uniswap-v3"@,
    }
}

/// `sources[i]` charges the lowest premium of all `sources`, and is the first
/// that does.
pub open spec fn is_first_cheapest(sources: Seq<FlashSource>, i: int) -> bool {
    &&& 0 <= i < sources.len()
    &&& forall|j: int|
        0 <= j < sources.len() ==> spec_premium_bps(sources[i]) <= spec_premium_bps(
            #[trigger] sources[j],
        )
    &&& forall|j: int|
        0 <= j < i ==> spec_premium_bps(sources[i]) < spec_premium_bps(#[trigger] sources[j])
}

/// Cheapest source among those available: the first of minimal premium, or
/// `None` when none is available.
pub fn cheapest(sources: &[FlashSource]) -> (best: Option<FlashSource>)
    ensures
        sources@.len() == 0 <==> best is None,
        best matches Some(s) ==> exists|i: int| is_first_cheapest(sources@, i) && sources@[i] == s,
{
    if sources.len() == 0 {
        return None;
    }
    let mut best: usize = 0;
    let mut i: usize = 1;
    while i < sources.len()
        invariant
            0 <= best < i <= sources@.len(),
            forall|j: int|
                0 <= j < i ==> spec_premium_bps(sources@[best as int]) <= spec_premium_bps(
                    #[trigger] sources@[j],
                ),
            forall|j: int|
                0 <= j < best ==> spec_premium_bps(sources@[best as int]) < spec_premium_bps(
                    #[trigger] sources@[j],
                ),
        decreases sources@.len() - i,
    {
        if sources[i].premium_bps() < sources[best].premium_bps() {
            best = i;
        }
        i = i + 1;
    }
    let s = sources[best];
    proof {
        assert(is_first_cheapest(sources@, best as int));
    }
    Some(s)
}

/// Canonical signature of the Aave V3 pool's `flashLoanSimple`.
pub open spec fn aave_flash_signature() -> Seq<char> {
    "flashLoanSimple(address,address,uint256,bytes,uint16)"@
}

/// Canonical signature of the Balancer vault's `flashLoan`.
pub open spec fn balancer_flash_signature() -> Seq<char> {
    "flashLoan(address,address[],uint256[],bytes)"@
}

/// Calldata of an Aave V3 `flashLoanSimple(receiver, asset, amount, params, 0)`
/// call: the selector, three static words, the offset of `params` (five head
/// words in), a zero referral code, then the `params` tail.
pub open spec fn aave_flash_calldata(
    receiver: Address,
    asset: Address,
    amount: U256,
    params: Seq<u8>,
) -> Seq<u8> {
    selector(aave_flash_signature()) + address_word(receiver) + address_word(asset) + amount@
        + u64_word(160) + u64_word(0) + bytes_tail(params)
}

/// Decoding Aave flash-loan calldata gives back the call: argument word 0
/// holds the receiver and word 1 the asset (each in the low twenty bytes),
/// word 2 the full 256-bit amount, word 3 the offset 160 of `params`, word
/// 4 the zero referral code; at that offset (word 5) stands the length of
/// `params`, then its bytes, then zeros up to a whole word.
pub proof fn lemma_aave_flash_calldata_decodes(
    receiver: Address,
    asset: Address,
    amount: U256,
    params: Seq<u8>,
)
    requires
        selector(aave_flash_signature()).len() == 4,
        params.len() <= u64::MAX,
    ensures
        ({
            let d = aave_flash_calldata(receiver, asset, amount, params);
            let n = params.len() as int;
            &&& d.len() == 196 + n + (32 - n % 32) % 32
            &&& d.subrange(0, 4) == selector(aave_flash_signature())
            &&& holds_address(arg_word(d, 0), receiver)
            &&& holds_address(arg_word(d, 1), asset)
            &&& arg_word(d, 2) == amount@
            &&& be_value(arg_word(d, 3)) == 160
            &&& be_value(arg_word(d, 4)) == 0
            &&& be_value(arg_word(d, 5)) == n
            &&& d.subrange(196, 196 + n) == params
            &&& forall|i: int| 196 + n <= i < d.len() ==> #[trigger] d[i] == 0u8
        }),
{
    let d = aave_flash_calldata(receiver, asset, amount, params);
    let tail = bytes_tail(params);
    let n = params.len() as int;
    lemma_bytes_tail_reads_back(params);
    lemma_u64_word_value(160);
    lemma_u64_word_value(0);
    lemma_address_word_reads_back(receiver);
    lemma_address_word_reads_back(asset);
    assert(d.subrange(0, 4) =~= selector(aave_flash_signature()));
    assert(arg_word(d, 0) =~= address_word(receiver));
    assert(arg_word(d, 1) =~= address_word(asset));
    assert(arg_word(d, 2) =~= amount@);
    assert(arg_word(d, 3) =~= u64_word(160));
    assert(arg_word(d, 4) =~= u64_word(0));
    assert(arg_word(d, 5) =~= tail.subrange(0, 32));
    assert(d.subrange(196, 196 + n) =~= tail.subrange(32, 32 + n));
    assert forall|i: int| 196 + n <= i < d.len() implies #[trigger] d[i] == 0u8 by {
        assert(d[i] == tail[i - 164]);
    }
}

/// Decoding Balancer flash-loan calldata gives back the call. Word 0 holds
/// the recipient; words 1 to 3 hold the offsets of `tokens`, `amounts` and
/// `user_data`. At the first offset (word 4) stands the number of tokens,
/// then one word per token holding it; next the number of amounts, then
/// each full 256-bit amount; last the length of `user_data`, its bytes, and
/// zeros up to a whole word.
#[verifier::rlimit(40)]
pub proof fn lemma_balancer_flash_calldata_decodes(
    recipient: Address,
    tokens: Seq<Address>,
    amounts: Seq<U256>,
    user_data: Seq<u8>,
)
    requires
        selector(balancer_flash_signature()).len() == 4,
        192 + 32 * tokens.len() + 32 * amounts.len() <= u64::MAX,
        user_data.len() <= u64::MAX,
    ensures
        ({
            let d = balancer_flash_calldata(recipient, tokens, amounts, user_data);
            let t = tokens.len() as int;
            let a = amounts.len() as int;
            let n = user_data.len() as int;
            let u = 4 + 32 * (7 + t + a);
            &&& d.len() == u + n + (32 - n % 32) % 32
            &&& d.subrange(0, 4) == selector(balancer_flash_signature())
            &&& holds_address(arg_word(d, 0), recipient)
            &&& be_value(arg_word(d, 1)) == 128
            &&& be_value(arg_word(d, 2)) == 160 + 32 * t
            &&& be_value(arg_word(d, 3)) == 192 + 32 * t + 32 * a
            &&& be_value(arg_word(d, 4)) == t
            &&& forall|k: int|
                0 <= k < t ==> holds_address(arg_word(d, 5 + k), #[trigger] tokens[k])
            &&& be_value(arg_word(d, 5 + t)) == a
            &&& forall|k: int| 0 <= k < a ==> arg_word(d, 6 + t + k) == (#[trigger] amounts[k])@
            &&& be_value(arg_word(d, 6 + t + a)) == n
            &&& d.subrange(u, u + n) == user_data
            &&& forall|i: int| u + n <= i < d.len() ==> #[trigger] d[i] == 0u8
        }),
{
    let d = balancer_flash_calldata(recipient, tokens, amounts, user_data);
    let t = tokens.len() as int;
    let a = amounts.len() as int;
    let n = user_data.len() as int;
    let u = 4 + 32 * (7 + t + a);
    let head = selector(balancer_flash_signature()) + address_word(recipient) + u64_word(128)
        + u64_word((160 + 32 * t) as u64) + u64_word((192 + 32 * t + 32 * a) as u64);
    let ta = address_array_tail(tokens);
    let va = value_array_tail(amounts);
    let bt = bytes_tail(user_data);
    assert(d =~= head + ta + va + bt);
    lemma_address_words_read_back(tokens);
    lemma_value_words_read_back(amounts);
    lemma_bytes_tail_reads_back(user_data);
    lemma_address_word_reads_back(recipient);
    lemma_u64_word_value(128);
    lemma_u64_word_value((160 + 32 * t) as u64);
    lemma_u64_word_value((192 + 32 * t + 32 * a) as u64);
    lemma_u64_word_value(t as u64);
    lemma_u64_word_value(a as u64);
    assert(head.len() == 132);
    assert(ta.len() == 32 + 32 * t);
    assert(va.len() == 32 + 32 * a);
    assert(d.subrange(0, 4) =~= selector(balancer_flash_signature()));
    assert(arg_word(d, 0) =~= address_word(recipient));
    assert(arg_word(d, 1) =~= u64_word(128));
    assert(arg_word(d, 2) =~= u64_word((160 + 32 * t) as u64));
    assert(arg_word(d, 3) =~= u64_word((192 + 32 * t + 32 * a) as u64));
    assert(arg_word(d, 4) =~= u64_word(t as u64));
    assert forall|k: int| 0 <= k < t implies holds_address(
        arg_word(d, 5 + k),
        #[trigger] tokens[k],
    ) by {
        assert(arg_word(d, 5 + k) =~= address_words(tokens).subrange(32 * k, 32 * k + 32));
    }
    assert(arg_word(d, 5 + t) =~= u64_word(a as u64));
    assert forall|k: int| 0 <= k < a implies arg_word(d, 6 + t + k) == (#[trigger] amounts[k])@ by {
        assert(arg_word(d, 6 + t + k) =~= value_words(amounts).subrange(32 * k, 32 * k + 32));
    }
    assert(arg_word(d, 6 + t + a) =~= bt.subrange(0, 32));
    assert(d.subrange(u, u + n) =~= bt.subrange(32, 32 + n));
    assert forall|i: int| u + n <= i < d.len() implies #[trigger] d[i] == 0u8 by {
        assert(d[i] == bt[i - (u - 32)]);
    }
}

/// Encode an Aave V3 `flashLoanSimple` call.
pub fn encode_aave_flash(receiver: Address, asset: Address, amount: U256, params: Vec<u8>) -> (data:
    Vec<u8>)
    requires
        params@.len() <= u64::MAX,
    ensures
        data@ == aave_flash_calldata(receiver, asset, amount, params@),
        data@.subrange(0, 4) == selector(aave_flash_signature()),
        data@.len() == 196 + params@.len() + (32 - params@.len() % 32) % 32,
        holds_address(arg_word(data@, 0), receiver),
        holds_address(arg_word(data@, 1), asset),
        arg_word(data@, 2) == amount@,
        be_value(arg_word(data@, 3)) == 160,
        be_value(arg_word(data@, 4)) == 0,
        be_value(arg_word(data@, 5)) == params@.len(),
        data@.subrange(196, 196 + params@.len() as int) == params@,
        forall|i: int| 196 + params@.len() <= i < data@.len() ==> #[trigger] data@[i] == 0u8,
{
    let mut data = function_selector("flashLoanSimple(address,address,uint256,bytes,uint16)");
    push_address_word(&mut data, &receiver);
    push_address_word(&mut data, &asset);
    push_value_word(&mut data, &amount);
    push_u64_word(&mut data, 160);
    push_u64_word(&mut data, 0);
    push_bytes_tail(&mut data, params.as_slice());
    proof {
        lemma_aave_flash_calldata_decodes(receiver, asset, amount, params@);
    }
    data
}

/// The words of `n` addresses take `32 * n` bytes.
proof fn lemma_address_words_len(addrs: Seq<Address>)
    ensures
        address_words(addrs).len() == 32 * addrs.len(),
    decreases addrs.len(),
{
    if addrs.len() > 0 {
        lemma_address_words_len(addrs.drop_last());
    }
}

/// The words of `n` values take `32 * n` bytes.
proof fn lemma_value_words_len(vals: Seq<U256>)
    ensures
        value_words(vals).len() == 32 * vals.len(),
    decreases vals.len(),
{
    if vals.len() > 0 {
        lemma_value_words_len(vals.drop_last());
    }
}

/// Calldata of a Balancer vault `flashLoan(recipient, tokens, amounts,
/// user_data)` call: the selector, the recipient word, the offsets of the
/// three dynamic arguments (each counted from the start of the arguments),
/// then their tails in order.
pub open spec fn balancer_flash_calldata(
    recipient: Address,
    tokens: Seq<Address>,
    amounts: Seq<U256>,
    user_data: Seq<u8>,
) -> Seq<u8> {
    let tokens_at = 128int;
    let amounts_at = tokens_at + 32 + 32 * tokens.len();
    let user_data_at = amounts_at + 32 + 32 * amounts.len();
    selector(balancer_flash_signature()) + address_word(recipient) + u64_word(tokens_at as u64)
        + u64_word(amounts_at as u64) + u64_word(user_data_at as u64) + address_array_tail(tokens)
        + value_array_tail(amounts) + bytes_tail(user_data)
}

/// In Balancer flash-loan calldata each offset word points at its argument's
/// tail: the tokens tail starts right after the four head words, and each
/// following tail right after the one before it.
pub proof fn lemma_balancer_offsets_point_at_tails(
    tokens: Seq<Address>,
    amounts: Seq<U256>,
    user_data: Seq<u8>,
)
    ensures
        address_array_tail(tokens).len() == 32 + 32 * tokens.len(),
        value_array_tail(amounts).len() == 32 + 32 * amounts.len(),
        bytes_tail(user_data).len() % 32 == 0,
{
    lemma_address_words_len(tokens);
    lemma_value_words_len(amounts);
    let n = user_data.len();
    assert((32 + n + (32 - n % 32) % 32) % 32 == 0) by (nonlinear_arith);
}

/// Encode a Balancer vault `flashLoan` call.
pub fn encode_balancer_flash(
    recipient: Address,
    tokens: Vec<Address>,
    amounts: Vec<U256>,
    user_data: Vec<u8>,
) -> (data: Vec<u8>)
    requires
        192 + 32 * tokens@.len() + 32 * amounts@.len() <= u64::MAX,
        user_data@.len() <= u64::MAX,
    ensures
        data@ == balancer_flash_calldata(recipient, tokens@, amounts@, user_data@),
        data@.subrange(0, 4) == selector(balancer_flash_signature()),
        data@.len() == 228 + 32 * tokens@.len() + 32 * amounts@.len() + user_data@.len() + (32
            - user_data@.len() % 32) % 32,
        holds_address(arg_word(data@, 0), recipient),
        be_value(arg_word(data@, 1)) == 128,
        be_value(arg_word(data@, 2)) == 160 + 32 * tokens@.len(),
        be_value(arg_word(data@, 3)) == 192 + 32 * tokens@.len() + 32 * amounts@.len(),
        be_value(arg_word(data@, 4)) == tokens@.len(),
        forall|k: int|
            0 <= k < tokens@.len() ==> holds_address(arg_word(data@, 5 + k), #[trigger] tokens@[k]),
        be_value(arg_word(data@, 5 + tokens@.len() as int)) == amounts@.len(),
        forall|k: int|
            0 <= k < amounts@.len() ==> arg_word(data@, 6 + tokens@.len() + k)
                == (#[trigger] amounts@[k])@,
        be_value(arg_word(data@, 6 + tokens@.len() as int + amounts@.len())) == user_data@.len(),
        data@.subrange(
            4 + 32 * (7 + tokens@.len() as int + amounts@.len()),
            4 + 32 * (7 + tokens@.len() as int + amounts@.len()) + user_data@.len(),
        ) == user_data@,
        forall|i: int|
            4 + 32 * (7 + tokens@.len() + amounts@.len()) + user_data@.len() <= i < data@.len()
                ==> #[trigger] data@[i] == 0u8,
{
    let tokens_at: u64 = 128;
    let amounts_at: u64 = tokens_at + 32 + 32 * (tokens.len() as u64);
    let user_data_at: u64 = amounts_at + 32 + 32 * (amounts.len() as u64);
    let mut data = function_selector("flashLoan(address,address[],uint256[],bytes)");
    push_address_word(&mut data, &recipient);
    push_u64_word(&mut data, tokens_at);
    push_u64_word(&mut data, amounts_at);
    push_u64_word(&mut data, user_data_at);
    push_address_array_tail(&mut data, tokens.as_slice());
    push_value_array_tail(&mut data, amounts.as_slice());
    push_bytes_tail(&mut data, user_data.as_slice());
    proof {
        lemma_balancer_flash_calldata_decodes(recipient, tokens@, amounts@, user_data@);
    }
    data
}

} // verus!
