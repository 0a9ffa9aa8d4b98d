//! The closed set of supported blockchain networks and their chain ids.

use vstd::prelude::*;

verus! {

/// Supported blockchain networks, each mapped 1:1 to a numeric chain id.
#[derive(Clone, Copy, PartialEq, Eq, Structural, Debug)]
pub enum Network {
    Ethereum,
    Base,
    BaseSepolia,
    Arbitrum,
    Optimism,
    Polygon,
}

impl Network {
    /// The chain id of this network.
    pub open spec fn spec_chain_id(self) -> u64 {
        match self {
            Network::Ethereum => 1,
            Network::Base => 8453,
            Network::BaseSepolia => 84532,
            Network::Arbitrum => 42161,
            Network::Optimism => 10,
            Network::Polygon => 137,
        }
    }

    pub fn chain_id(&self) -> (r: u64)
        ensures
            r == self.spec_chain_id(),
    {
        match self {
            Network::Ethereum => 1,
            Network::Base => 8453,
            Network::BaseSepolia => 84532,
            Network::Arbitrum => 42161,
            Network::Optimism => 10,
            Network::Polygon => 137,
        }
    }

    /// The network with the given chain id, or `None` for an unknown id.
    pub open spec fn spec_from_chain_id(chain_id: u64) -> Option<Network> {
        match chain_id {
            1u64 => Some(Network::Ethereum),
            8453u64 => Some(Network::Base),
            84532u64 => Some(Network::BaseSepolia),
            42161u64 => Some(Network::Arbitrum),
            10u64 => Some(Network::Optimism),
            137u64 => Some(Network::Polygon),
            _ => None,
        }
    }

    pub fn from_chain_id(chain_id: u64) -> (r: Option<Network>)
        ensures
            r == Self::spec_from_chain_id(chain_id),
    {
        match chain_id {
            1 => Some(Network::Ethereum),
            8453 => Some(Network::Base),
            84532 => Some(Network::BaseSepolia),
            42161 => Some(Network::Arbitrum),
            10 => Some(Network::Optimism),
            137 => Some(Network::Polygon),
            _ => None,
        }
    }

    /// The canonical lowercase wire name of this network, as ASCII bytes.
    pub open spec fn spec_name_bytes(self) -> Seq<u8> {
        match self {
            Network::Ethereum => seq![101u8, 116u8, 104u8, 101u8, 114u8, 101u8, 117u8, 109u8],
            Network::Base => seq![98u8, 97u8, 115u8, 101u8],
            Network::BaseSepolia => seq![
                98u8, 97u8, 115u8, 101u8, 95u8, 115u8, 101u8, 112u8, 111u8, 108u8, 105u8, 97u8,
            ],
            Network::Arbitrum => seq![97u8, 114u8, 98u8, 105u8, 116u8, 114u8, 117u8, 109u8],
            Network::Optimism => seq![111u8, 112u8, 116u8, 105u8, 109u8, 105u8, 115u8, 109u8],
            Network::Polygon => seq![112u8, 111u8, 108u8, 121u8, 103u8, 111u8, 110u8],
        }
    }

    /// The non-canonical spelling of `BaseSepolia` that decoding also accepts.
    pub open spec fn alt_base_sepolia_bytes() -> Seq<u8> {
        seq![98u8, 97u8, 115u8, 101u8, 115u8, 101u8, 112u8, 111u8, 108u8, 105u8, 97u8]
    }

    /// Appends the canonical wire name of this network to `out`.
    pub fn push_name_bytes(&self, out: &mut Vec<u8>)
        ensures
            final(out)@ == old(out)@ + self.spec_name_bytes(),
    {
        match self {
            Network::Ethereum => {
                out.push(101u8);
                out.push(116u8);
                out.push(104u8);
                out.push(101u8);
                out.push(114u8);
                out.push(101u8);
                out.push(117u8);
                out.push(109u8);
            },
            Network::Base => {
                out.push(98u8);
                out.push(97u8);
                out.push(115u8);
                out.push(101u8);
            },
            Network::BaseSepolia => {
                out.push(98u8);
                out.push(97u8);
                out.push(115u8);
                out.push(101u8);
                out.push(95u8);
                out.push(115u8);
                out.push(101u8);
                out.push(112u8);
                out.push(111u8);
                out.push(108u8);
                out.push(105u8);
                out.push(97u8);
            },
            Network::Arbitrum => {
                out.push(97u8);
                out.push(114u8);
                out.push(98u8);
                out.push(105u8);
                out.push(116u8);
                out.push(114u8);
                out.push(117u8);
                out.push(109u8);
            },
            Network::Optimism => {
                out.push(111u8);
                out.push(112u8);
                out.push(116u8);
                out.push(105u8);
                out.push(109u8);
                out.push(105u8);
                out.push(115u8);
                out.push(109u8);
            },
            Network::Polygon => {
                out.push(112u8);
                out.push(111u8);
                out.push(108u8);
                out.push(121u8);
                out.push(103u8);
                out.push(111u8);
                out.push(110u8);
            },
        }
        assert(final(out)@ =~= old(out)@ + self.spec_name_bytes());
    }

    /// The network named by `name` (lowercase ASCII bytes). Both the canonical
    /// `base_sepolia` and the legacy `basesepolia` spelling are accepted.
    pub open spec fn spec_from_name_bytes(name: Seq<u8>) -> Option<Network> {
        if name == Network::Ethereum.spec_name_bytes() {
            Some(Network::Ethereum)
        } else if name == Network::Base.spec_name_bytes() {
            Some(Network::Base)
        } else if name == Network::BaseSepolia.spec_name_bytes()
            || name == Network::alt_base_sepolia_bytes() {
            Some(Network::BaseSepolia)
        } else if name == Network::Arbitrum.spec_name_bytes() {
            Some(Network::Arbitrum)
        } else if name == Network::Optimism.spec_name_bytes() {
            Some(Network::Optimism)
        } else if name == Network::Polygon.spec_name_bytes() {
            Some(Network::Polygon)
        } else {
            None
        }
    }

    pub fn from_name_bytes(name: &[u8]) -> (r: Option<Network>)
        ensures
            r == Self::spec_from_name_bytes(name@),
    {
        let candidates: [Network; 6] = [
            Network::Ethereum,
            Network::Base,
            Network::BaseSepolia,
            Network::Arbitrum,
            Network::Optimism,
            Network::Polygon,
        ];
        let mut k: usize = 0;
        while k < 6
            invariant
                k <= 6,
                candidates@ =~= seq![
                    Network::Ethereum,
                    Network::Base,
                    Network::BaseSepolia,
                    Network::Arbitrum,
                    Network::Optimism,
                    Network::Polygon,
                ],
                forall|j: int| 0 <= j < k ==> name@ != candidates@[j].spec_name_bytes(),
            decreases 6 - k,
        {
            let mut canon: Vec<u8> = Vec::new();
            candidates[k].push_name_bytes(&mut canon);
            if bytes_eq(name, canon.as_slice()) {
                return Some(candidates[k]);
            }
            k += 1;
        }
        let mut alt: Vec<u8> = Vec::new();
        alt.push(98u8);
        alt.push(97u8);
        alt.push(115u8);
        alt.push(101u8);
        alt.push(115u8);
        alt.push(101u8);
        alt.push(112u8);
        alt.push(111u8);
        alt.push(108u8);
        alt.push(105u8);
        alt.push(97u8);
        assert(alt@ =~= Network::alt_base_sepolia_bytes());
        if bytes_eq(name, alt.as_slice()) {
            return Some(Network::BaseSepolia);
        }
        None
    }
}

/// Exact equality of two byte slices.
pub fn bytes_eq(a: &[u8], b: &[u8]) -> (r: bool)
    ensures
        r <==> a@ == b@,
{
    if a.len() != b.len() {
        assert(a@.len() != b@.len());
        return false;
    }
    let n = a.len();
    let mut i: usize = 0;
    while i < n
        invariant
            n == a@.len() && n == b@.len(),
            i <= n,
            forall|j: int| 0 <= j < i ==> a@[j] == b@[j],
        decreases n - i,
    {
        if a[i] != b[i] {
            return false;
        }
        i += 1;
    }
    assert(a@ =~= b@);
    true
}

/// The two directions of the network registry agree: every network's chain id
/// maps back to that network, and every known chain id maps to a network with
/// that very id.
pub proof fn lemma_network_chain_id_roundtrip(n: Network, chain_id: u64)
    ensures
        Network::spec_from_chain_id(n.spec_chain_id()) == Some(n),
        Network::spec_from_chain_id(chain_id) matches Some(m) ==> m.spec_chain_id() == chain_id,
{
}


/// ASCII-lowercases a byte string, as network name matching does.
pub open spec fn spec_ascii_lower(s: Seq<u8>) -> Seq<u8> {
    Seq::new(s.len(), |i: int| if 65 <= s[i] <= 90 { (s[i] + 32) as u8 } else { s[i] })
}

/// Lowercases ASCII letters in a byte string.
pub fn ascii_lower(s: &[u8]) -> (r: Vec<u8>)
    ensures
        r@ == spec_ascii_lower(s@),
{
    let mut out: Vec<u8> = Vec::new();
    let n = s.len();
    let mut i: usize = 0;
    while i < n
        invariant
            n == s@.len(),
            i <= n,
            out@.len() == i,
            forall|j: int| 0 <= j < i ==> out@[j] == spec_ascii_lower(s@)[j],
        decreases n - i,
    {
        let b = s[i];
        if 65 <= b && b <= 90 {
            out.push(b + 32);
        } else {
            out.push(b);
        }
        i += 1;
    }
    proof {
        assert(out@ =~= spec_ascii_lower(s@));
    }
    out
}

impl Network {
    /// The canonical wire name of this network, as ASCII bytes.
    pub fn name_bytes(&self) -> (r: Vec<u8>)
        ensures
            r@ == self.spec_name_bytes(),
    {
        let mut out: Vec<u8> = Vec::new();
        self.push_name_bytes(&mut out);
        out
    }

    /// The network named by `name`, compared case-insensitively; both
    /// spellings of the Base Sepolia testnet are accepted.
    pub fn from_name(name: &[u8]) -> (r: Option<Network>)
        ensures
            r == Self::spec_from_name_bytes(spec_ascii_lower(name@)),
    {
        let lowered = ascii_lower(name);
        Self::from_name_bytes(lowered.as_slice())
    }
}


} // verus!
