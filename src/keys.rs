use vstd::prelude::*;

verus! {

// Key containers hold their material as serialized bytes: evaluation never
// looks inside a key, it only carries keys between client and server. Each
// `...Versions` enum lists the layouts a stored key may have, and
// `into_current` brings any of them to the current layout.

pub struct ClientKey {
    pub material: Vec<u8>,
}

pub struct PublicKey {
    pub material: Vec<u8>,
}

pub struct CompactPublicKey {
    pub material: Vec<u8>,
}

pub struct CompressedPublicKey {
    pub material: Vec<u8>,
}

pub struct CompressedCompactPublicKey {
    pub material: Vec<u8>,
}

pub struct KeySwitchingKey {
    pub material: Vec<u8>,
}

pub struct IntegerClientKey {
    pub key: Vec<u8>,
    pub wopbs_block_parameters: Option<Vec<u8>>,
    pub dedicated_compact_private_key: Option<Vec<u8>>,
    pub compression_key: Option<Vec<u8>>,
}

pub struct IntegerServerKey {
    pub key: Vec<u8>,
    pub wopbs_key: Option<Vec<u8>>,
    pub cpk_key_switching_key_material: Option<Vec<u8>>,
    pub compression_key: Option<Vec<u8>>,
    pub decompression_key: Option<Vec<u8>>,
}

pub struct IntegerCompressedServerKey {
    pub key: Vec<u8>,
    pub cpk_key_switching_key_material: Option<Vec<u8>>,
    pub compression_key: Option<Vec<u8>>,
    pub decompression_key: Option<Vec<u8>>,
}

pub struct ServerKey {
    pub key: IntegerServerKey,
}

pub struct CompressedServerKey {
    pub integer_key: IntegerCompressedServerKey,
}

/// The first server-key layout, whose inner key was named `integer_key`.
pub struct ServerKeyV0 {
    pub integer_key: IntegerServerKey,
}

impl ServerKeyV0 {
    pub fn upgrade(self) -> (r: ServerKey)
        ensures
            r == (ServerKey { key: self.integer_key }),
    {
        ServerKey { key: self.integer_key }
    }
}

/// The first client-key layout, without a dedicated compact key or compression key.
pub struct IntegerClientKeyV0 {
    pub key: Vec<u8>,
    pub wopbs_block_parameters: Option<Vec<u8>>,
}

impl IntegerClientKeyV0 {
    pub fn upgrade(self) -> (r: IntegerClientKey)
        ensures
            r == (IntegerClientKey {
                key: self.key,
                wopbs_block_parameters: self.wopbs_block_parameters,
                dedicated_compact_private_key: None,
                compression_key: None,
            }),
    {
        IntegerClientKey {
            key: self.key,
            wopbs_block_parameters: self.wopbs_block_parameters,
            dedicated_compact_private_key: None,
            compression_key: None,
        }
    }
}

/// The first integer server-key layout, before key-switching and compression keys.
pub struct IntegerServerKeyV0 {
    pub key: Vec<u8>,
    pub wopbs_key: Option<Vec<u8>>,
}

impl IntegerServerKeyV0 {
    pub fn upgrade(self) -> (r: IntegerServerKey)
        ensures
            r == (IntegerServerKey {
                key: self.key,
                wopbs_key: self.wopbs_key,
                cpk_key_switching_key_material: None,
                compression_key: None,
                decompression_key: None,
            }),
    {
        IntegerServerKey {
            key: self.key,
            wopbs_key: self.wopbs_key,
            cpk_key_switching_key_material: None,
            compression_key: None,
            decompression_key: None,
        }
    }
}

/// The first compressed integer server-key layout.
pub struct IntegerCompressedServerKeyV0 {
    pub key: Vec<u8>,
}

impl IntegerCompressedServerKeyV0 {
    pub fn upgrade(self) -> (r: IntegerCompressedServerKey)
        ensures
            r == (IntegerCompressedServerKey {
                key: self.key,
                cpk_key_switching_key_material: None,
                compression_key: None,
                decompression_key: None,
            }),
    {
        IntegerCompressedServerKey {
            key: self.key,
            cpk_key_switching_key_material: None,
            compression_key: None,
            decompression_key: None,
        }
    }
}

pub enum ClientKeyVersions {
    V0(ClientKey),
}

impl ClientKeyVersions {
    pub fn into_current(self) -> (r: ClientKey)
        ensures
            self matches ClientKeyVersions::V0(k) && r == k,
    {
        match self {
            ClientKeyVersions::V0(k) => k,
        }
    }
}

pub enum ServerKeyVersions {
    V0(ServerKeyV0),
    V1(ServerKey),
}

impl ServerKeyVersions {
    pub fn into_current(self) -> (r: ServerKey)
        ensures
            self matches ServerKeyVersions::V0(k) ==> r == (ServerKey { key: k.integer_key }),
            self matches ServerKeyVersions::V1(k) ==> r == k,
    {
        match self {
            ServerKeyVersions::V0(k) => k.upgrade(),
            ServerKeyVersions::V1(k) => k,
        }
    }
}

pub enum CompressedServerKeyVersions {
    V0(CompressedServerKey),
}

impl CompressedServerKeyVersions {
    pub fn into_current(self) -> (r: CompressedServerKey)
        ensures
            self matches CompressedServerKeyVersions::V0(k) && r == k,
    {
        match self {
            CompressedServerKeyVersions::V0(k) => k,
        }
    }
}

pub enum PublicKeyVersions {
    V0(PublicKey),
}

impl PublicKeyVersions {
    pub fn into_current(self) -> (r: PublicKey)
        ensures
            self matches PublicKeyVersions::V0(k) && r == k,
    {
        match self {
            PublicKeyVersions::V0(k) => k,
        }
    }
}

pub enum CompactPublicKeyVersions {
    V0(CompactPublicKey),
}

impl CompactPublicKeyVersions {
    pub fn into_current(self) -> (r: CompactPublicKey)
        ensures
            self matches CompactPublicKeyVersions::V0(k) && r == k,
    {
        match self {
            CompactPublicKeyVersions::V0(k) => k,
        }
    }
}

pub enum CompressedPublicKeyVersions {
    V0(CompressedPublicKey),
}

impl CompressedPublicKeyVersions {
    pub fn into_current(self) -> (r: CompressedPublicKey)
        ensures
            self matches CompressedPublicKeyVersions::V0(k) && r == k,
    {
        match self {
            CompressedPublicKeyVersions::V0(k) => k,
        }
    }
}

pub enum CompressedCompactPublicKeyVersions {
    V0(CompressedCompactPublicKey),
}

impl CompressedCompactPublicKeyVersions {
    pub fn into_current(self) -> (r: CompressedCompactPublicKey)
        ensures
            self matches CompressedCompactPublicKeyVersions::V0(k) && r == k,
    {
        match self {
            CompressedCompactPublicKeyVersions::V0(k) => k,
        }
    }
}

pub enum IntegerClientKeyVersions {
    V0(IntegerClientKeyV0),
    V1(IntegerClientKey),
}

impl IntegerClientKeyVersions {
    pub fn into_current(self) -> (r: IntegerClientKey)
        ensures
            self matches IntegerClientKeyVersions::V0(k) ==> r == (IntegerClientKey {
                key: k.key,
                wopbs_block_parameters: k.wopbs_block_parameters,
                dedicated_compact_private_key: None,
                compression_key: None,
            }),
            self matches IntegerClientKeyVersions::V1(k) ==> r == k,
    {
        match self {
            IntegerClientKeyVersions::V0(k) => k.upgrade(),
            IntegerClientKeyVersions::V1(k) => k,
        }
    }
}

pub enum IntegerServerKeyVersions {
    V0(IntegerServerKeyV0),
    V1(IntegerServerKey),
}

impl IntegerServerKeyVersions {
    pub fn into_current(self) -> (r: IntegerServerKey)
        ensures
            self matches IntegerServerKeyVersions::V0(k) ==> r == (IntegerServerKey {
                key: k.key,
                wopbs_key: k.wopbs_key,
                cpk_key_switching_key_material: None,
                compression_key: None,
                decompression_key: None,
            }),
            self matches IntegerServerKeyVersions::V1(k) ==> r == k,
    {
        match self {
            IntegerServerKeyVersions::V0(k) => k.upgrade(),
            IntegerServerKeyVersions::V1(k) => k,
        }
    }
}

pub enum IntegerCompressedServerKeyVersions {
    V0(IntegerCompressedServerKeyV0),
    V1(IntegerCompressedServerKey),
}

impl IntegerCompressedServerKeyVersions {
    pub fn into_current(self) -> (r: IntegerCompressedServerKey)
        ensures
            self matches IntegerCompressedServerKeyVersions::V0(k) ==> r == (
            IntegerCompressedServerKey {
                key: k.key,
                cpk_key_switching_key_material: None,
                compression_key: None,
                decompression_key: None,
            }),
            self matches IntegerCompressedServerKeyVersions::V1(k) ==> r == k,
    {
        match self {
            IntegerCompressedServerKeyVersions::V0(k) => k.upgrade(),
            IntegerCompressedServerKeyVersions::V1(k) => k,
        }
    }
}

pub enum KeySwitchingKeyVersions {
    V0(KeySwitchingKey),
}

impl KeySwitchingKeyVersions {
    pub fn into_current(self) -> (r: KeySwitchingKey)
        ensures
            self matches KeySwitchingKeyVersions::V0(k) && r == k,
    {
        match self {
            KeySwitchingKeyVersions::V0(k) => k,
        }
    }
}

} // verus!
