//! The backend: the signed bridge directory, and the licenses it issues.

use vstd::prelude::*;

use crate::addr::SocketAddr;
use crate::bridge::KeyError;
use crate::bytes::{array_of, to_signed};
use crate::encoding::{b64_decode, b64_encode, hex_decode, hex_encode};
use crate::license::{LicensePayload, LicenseToken};
use crate::signing::{SigningKey, VerifyingKey, SIG_LEN};

verus! {

use crate::bridge::{AdmitError, Bridge};
use crate::bytes::{bit_patterns_agree, signed_value};
use crate::crypto::{ed25519_accepts, ed25519_public, ed25519_signature, x25519_base};
use crate::encoding::{
    b64_is_injective, b64_refusal, b64_text, hex_bytes, hex_refusal, hex_text, is_hex,
};
use crate::protocol::ConnectRequest;
use crate::tunnel::{opened_tunnel_is_granted, opens_tunnel, OpenedTunnel};

// ---------- The directory ----------

/// A bridge as clients see it.
#[derive(Debug)]
pub struct BridgeEntry {
    /// Stable identifier: region prefix and ordinal.
    pub id: String,
    /// Name shown in the user interface.
    pub name: String,
    /// Geographic region.
    pub region: String,
    /// Zone within the region, matched against those of game servers.
    pub zone: String,
    /// Where clients connect.
    pub endpoint: SocketAddr,
    /// The bridge's public key, as hexadecimal.
    pub pubkey_hex: String,
    /// The game zones that this bridge is meant to serve.
    pub game_zones: Vec<String>,
    /// Whether it takes clients at present.
    pub enabled: bool,
}

/// What a bridge entry says.
#[verifier::ext_equal]
pub struct BridgeEntryView {
    pub id: Seq<char>,
    pub name: Seq<char>,
    pub region: Seq<char>,
    pub zone: Seq<char>,
    pub endpoint: SocketAddr,
    pub pubkey_hex: Seq<char>,
    pub game_zones: Seq<Seq<char>>,
    pub enabled: bool,
}

impl View for BridgeEntry {
    type V = BridgeEntryView;

    open spec fn view(&self) -> BridgeEntryView {
        BridgeEntryView {
            id: self.id@,
            name: self.name@,
            region: self.region@,
            zone: self.zone@,
            endpoint: self.endpoint,
            pubkey_hex: self.pubkey_hex@,
            game_zones: self.game_zones@.map_values(|s: String| s@),
            enabled: self.enabled,
        }
    }
}

impl BridgeEntry {
    /// A copy of the entry.
    pub fn duplicate(&self) -> (copy: BridgeEntry)
        ensures
            copy@ == self@,
    {
        let mut game_zones: Vec<String> = Vec::new();
        let mut i: usize = 0;
        while i < self.game_zones.len()
            invariant
                i <= self.game_zones@.len(),
                game_zones@.len() == i,
                forall|j: int| 0 <= j < i ==> #[trigger] game_zones@[j]@ == self.game_zones@[j]@,
            decreases self.game_zones@.len() - i,
        {
            game_zones.push(self.game_zones[i].clone());
            i += 1;
        }
        let copy = BridgeEntry {
            id: self.id.clone(),
            name: self.name.clone(),
            region: self.region.clone(),
            zone: self.zone.clone(),
            endpoint: self.endpoint,
            pubkey_hex: self.pubkey_hex.clone(),
            game_zones,
            enabled: self.enabled,
        };
        assert(copy@.game_zones =~= self@.game_zones);
        copy
    }
}

/// The directory that clients fetch. Times are nanoseconds since the Unix
/// epoch.
#[derive(Debug)]
pub struct BridgeDirectory {
    pub version: u32,
    pub issued_at_ns: i128,
    /// After this time clients fetch the directory again.
    pub expires_at_ns: i128,
    pub bridges: Vec<BridgeEntry>,
}

/// What the entries of a list say.
pub open spec fn entry_views(bridges: Seq<BridgeEntry>) -> Seq<BridgeEntryView> {
    bridges.map_values(|b: BridgeEntry| b@)
}

/// The entries that take clients, in their order.
pub open spec fn enabled_of(bridges: Seq<BridgeEntryView>) -> Seq<BridgeEntryView>
    decreases bridges.len(),
{
    if bridges.len() == 0 {
        Seq::empty()
    } else if bridges.last().enabled {
        enabled_of(bridges.drop_last()).push(bridges.last())
    } else {
        enabled_of(bridges.drop_last())
    }
}

/// A disabled bridge is never listed.
pub proof fn only_enabled_bridges_are_listed(bridges: Seq<BridgeEntryView>, b: BridgeEntryView)
    ensures
        enabled_of(bridges).contains(b) <==> bridges.contains(b) && b.enabled,
    decreases bridges.len(),
{
    if bridges.len() > 0 {
        let front = bridges.drop_last();
        only_enabled_bridges_are_listed(front, b);
        assert(bridges =~= front.push(bridges.last()));
        if bridges.contains(b) && !front.contains(b) {
            let i = choose|i: int| 0 <= i < bridges.len() && bridges[i] == b;
            assert(i < front.len() ==> front[i] == b);
        }
        if front.contains(b) {
            let i = choose|i: int| 0 <= i < front.len() && front[i] == b;
            assert(bridges[i] == b);
        }
        let listed = enabled_of(front);
        let grown = listed.push(bridges.last());
        assert(grown[listed.len() as int] == bridges.last());
        if listed.contains(b) {
            let i = choose|i: int| 0 <= i < listed.len() && listed[i] == b;
            assert(grown[i] == b);
        }
        if grown.contains(b) && !listed.contains(b) {
            let i = choose|i: int| 0 <= i < grown.len() && grown[i] == b;
            assert(i < listed.len() ==> listed[i] == b);
        }
        assert(bridges[bridges.len() - 1] == bridges.last());
    }
}

#[derive(Debug)]
pub enum VerifyError {
    /// One of the two texts is not base64.
    Base64(String),
    /// A signature has to be 64 bytes.
    BadSignatureLength(usize),
    /// The signature is not the backend's.
    BadSignature,
    /// The directory cannot be read.
    Json(String),
}

/// The bytes that a base64 text stands for.
pub open spec fn b64_bytes(text: Seq<char>) -> Option<Seq<u8>> {
    if exists|bytes: Seq<u8>| b64_text(bytes) == text {
        Some(choose|bytes: Seq<u8>| b64_text(bytes) == text)
    } else {
        None
    }
}

/// Reading the base64 text of a byte string gives the bytes.
pub proof fn b64_round_trip(bytes: Seq<u8>)
    ensures
        b64_bytes(b64_text(bytes)) == Some(bytes),
{
    let other = choose|other: Seq<u8>| b64_text(other) == b64_text(bytes);
    assert(b64_text(other) == b64_text(bytes));
    b64_is_injective(other, bytes);
}

/// A directory document and its signature, both as base64.
#[derive(Debug)]
pub struct SignedDirectory {
    pub payload_b64: String,
    pub signature_b64: String,
}

/// What is owed of verifying a signed directory.
pub open spec fn directory_outcome(
    r: Result<Vec<u8>, VerifyError>,
    payload_b64: Seq<char>,
    signature_b64: Seq<char>,
    backend_pubkey: Seq<u8>,
) -> bool {
    match (b64_bytes(payload_b64), b64_bytes(signature_b64)) {
        (None, _) => r matches Err(VerifyError::Base64(message)) && message@ == b64_refusal(
            payload_b64,
        ),
        (Some(_), None) => r matches Err(VerifyError::Base64(message)) && message@ == b64_refusal(
            signature_b64,
        ),
        (Some(payload), Some(signature)) => if signature.len() != SIG_LEN {
            r matches Err(VerifyError::BadSignatureLength(n)) && n == signature.len()
        } else if !ed25519_accepts(backend_pubkey, payload, signature) {
            r matches Err(VerifyError::BadSignature)
        } else {
            r matches Ok(bytes) && bytes@ == payload
        },
    }
}

impl SignedDirectory {
    /// Signs the document of a directory. Verifying the result with the public
    /// key that belongs to the signing key gives the document back.
    pub fn sign(payload: &[u8], key: &SigningKey) -> (signed: SignedDirectory)
        ensures
            signed.payload_b64@ == b64_text(payload@),
            signed.signature_b64@ == b64_text(ed25519_signature(key@, payload@)),
            forall|r: Result<Vec<u8>, VerifyError>| #[trigger]
                directory_outcome(
                    r,
                    signed.payload_b64@,
                    signed.signature_b64@,
                    ed25519_public(key@),
                ) ==> (r matches Ok(bytes) && bytes@ == payload@),
    {
        let signature = key.sign(payload);
        proof {
            b64_round_trip(payload@);
            b64_round_trip(signature@);
        }
        SignedDirectory { payload_b64: b64_encode(payload), signature_b64: b64_encode(&signature) }
    }

    /// Verifies the signature; gives the document of the directory.
    pub fn verify(&self, backend_pubkey: &VerifyingKey) -> (r: Result<Vec<u8>, VerifyError>)
        ensures
            directory_outcome(r, self.payload_b64@, self.signature_b64@, backend_pubkey@),
    {
        let payload = match b64_decode(self.payload_b64.as_str()) {
            Ok(bytes) => bytes,
            Err(message) => {
                return Err(VerifyError::Base64(message));
            },
        };
        proof {
            b64_round_trip(payload@);
        }
        let signature = match b64_decode(self.signature_b64.as_str()) {
            Ok(bytes) => bytes,
            Err(message) => {
                return Err(VerifyError::Base64(message));
            },
        };
        proof {
            b64_round_trip(signature@);
        }
        if signature.len() != SIG_LEN {
            return Err(VerifyError::BadSignatureLength(signature.len()));
        }
        let signature_array: [u8; SIG_LEN] = array_of(&signature);
        let accepted = backend_pubkey.accepts(&payload, &signature_array);
        judge_directory(payload, accepted)
    }
}

/// A signed directory is refused under the key of another backend, unless the
/// signature happens to be accepted under it too.
pub proof fn directory_of_other_key_is_refused(
    r: Result<Vec<u8>, VerifyError>,
    payload: Seq<u8>,
    signature: Seq<u8>,
    other_pubkey: Seq<u8>,
)
    requires
        signature.len() == SIG_LEN,
        !ed25519_accepts(other_pubkey, payload, signature),
        directory_outcome(r, b64_text(payload), b64_text(signature), other_pubkey),
    ensures
        r == Err::<Vec<u8>, VerifyError>(VerifyError::BadSignature),
{
    b64_round_trip(payload);
    b64_round_trip(signature);
}

/// The document of a directory, given whether its signature was accepted.
pub fn judge_directory(payload: Vec<u8>, accepted: bool) -> (r: Result<Vec<u8>, VerifyError>)
    ensures
        if accepted {
            r == Ok::<Vec<u8>, VerifyError>(payload)
        } else {
            r == Err::<Vec<u8>, VerifyError>(VerifyError::BadSignature)
        },
{
    if accepted {
        Ok(payload)
    } else {
        Err(VerifyError::BadSignature)
    }
}

// ---------- The state of the backend ----------

/// License tokens are valid for 7 days.
pub fn default_token_ttl() -> (secs: u64)
    ensures
        secs == 7 * 24 * 60 * 60,
{
    7 * 24 * 60 * 60
}

/// Directories are valid for 30 minutes.
pub fn default_directory_ttl() -> (secs: u64)
    ensures
        secs == 30 * 60,
{
    30 * 60
}

#[derive(Debug)]
pub struct BackendConfig {
    /// HTTP address to listen on.
    pub listen: SocketAddr,
    /// The backend's Ed25519 seed, as hexadecimal. Tokens and directories are
    /// signed with it.
    pub backend_seckey_hex: String,
    /// All bridges that are known.
    pub bridges: Vec<BridgeEntry>,
    /// How long license tokens are valid, in seconds.
    pub token_ttl_secs: u64,
    /// How long directories are valid, in seconds.
    pub directory_ttl_secs: u64,
}

#[derive(Debug)]
pub enum AppError {
    Internal(String),
    BadRequest(String),
}

impl AppError {
    /// The HTTP status of the error.
    pub fn status(&self) -> (code: u16)
        ensures
            code == (match self {
                AppError::Internal(_) => 500u16,
                AppError::BadRequest(_) => 400u16,
            }),
    {
        match self {
            AppError::Internal(_) => 500,
            AppError::BadRequest(_) => 400,
        }
    }

    /// The text that the error is answered with.
    pub fn message(&self) -> (text: &str)
        ensures
            text@ == (match self {
                AppError::Internal(m) => m@,
                AppError::BadRequest(m) => m@,
            }),
    {
        match self {
            AppError::Internal(m) => m.as_str(),
            AppError::BadRequest(m) => m.as_str(),
        }
    }
}

/// The answer to a signup.
#[derive(Debug)]
pub struct SignupResponse {
    pub user_id: u32,
    pub license_token: String,
    pub expires_at_unix: i64,
}

/// What the backend keeps while it runs.
pub struct AppState {
    config: BackendConfig,
    signing_key: SigningKey,
    verifying_key: VerifyingKey,
    next_user_id: u32,
}

impl AppState {
    pub closed spec fn spec_config(self) -> BackendConfig {
        self.config
    }

    pub closed spec fn seed(self) -> Seq<u8> {
        self.signing_key@
    }

    pub closed spec fn next_id(self) -> u32 {
        self.next_user_id
    }

    /// The public key is the signing key's.
    pub closed spec fn wf(self) -> bool {
        self.verifying_key@ == ed25519_public(self.signing_key@)
    }

    /// The backend of a configuration. User ids start at 1.
    pub fn new(config: BackendConfig) -> (r: Result<AppState, KeyError>)
        ensures
            ({
                let text = config.backend_seckey_hex@;
                match r {
                    Ok(state) => {
                        &&& is_hex(text) && hex_bytes(text).len() == 32
                        &&& state.wf()
                        &&& state.spec_config() == config
                        &&& state.seed() == hex_bytes(text)
                        &&& state.next_id() == 1
                    },
                    Err(KeyError::Hex(message)) => !is_hex(text) && message@ == hex_refusal(text),
                    Err(KeyError::WrongLength(n)) => {
                        is_hex(text) && n == hex_bytes(text).len() && n != 32
                    },
                    Err(KeyError::NotAKey) => false,
                }
            }),
    {
        let key_bytes = match hex_decode(config.backend_seckey_hex.as_str()) {
            Ok(bytes) => bytes,
            Err(message) => {
                return Err(KeyError::Hex(message));
            },
        };
        if key_bytes.len() != 32 {
            return Err(KeyError::WrongLength(key_bytes.len()));
        }
        let signing_key = SigningKey::from_bytes(&array_of(&key_bytes));
        let verifying_key = signing_key.verifying_key();
        Ok(AppState { config, signing_key, verifying_key, next_user_id: 1 })
    }

    pub fn config(&self) -> (config: &BackendConfig)
        ensures
            *config == self.spec_config(),
    {
        &self.config
    }

    pub fn signing_key(&self) -> (key: &SigningKey)
        ensures
            key@ == self.seed(),
    {
        &self.signing_key
    }

    pub fn verifying_key(&self) -> (key: &VerifyingKey)
        requires
            self.wf(),
        ensures
            key@ == ed25519_public(self.seed()),
    {
        &self.verifying_key
    }

    /// How many user ids can still be issued.
    pub fn ids_left(&self) -> (n: u32)
        ensures
            n == u32::MAX - self.next_id(),
    {
        u32::MAX - self.next_user_id
    }

    /// Issues the next user id. There has to be one left.
    pub fn issue_user_id(&mut self) -> (id: u32)
        requires
            old(self).wf(),
            old(self).next_id() < u32::MAX,
        ensures
            final(self).wf(),
            id == old(self).next_id(),
            final(self).next_id() == id + 1,
            final(self).spec_config() == old(self).spec_config(),
            final(self).seed() == old(self).seed(),
    {
        let id: u32 = self.next_user_id;
        self.next_user_id = id + 1;
        id
    }

    /// The backend's public key, as clients are told it.
    pub fn pubkey_hex(&self) -> (text: String)
        requires
            self.wf(),
        ensures
            text@ == hex_text(ed25519_public(self.seed())),
    {
        hex_encode(&self.verifying_key.to_bytes())
    }

    /// The directory at this time: the enabled bridges, valid for the
    /// configured time, which is read as a signed number of seconds.
    pub fn directory(&self, now_ns: i128) -> (directory: BridgeDirectory)
        requires
            -0x1_0000_0000_0000_0000_0000_0000 <= now_ns <= 0x1_0000_0000_0000_0000_0000_0000,
        ensures
            directory.version == 1,
            directory.issued_at_ns == now_ns,
            directory.expires_at_ns == now_ns + signed_value(
                self.spec_config().directory_ttl_secs as nat,
            ) * 1_000_000_000,
            entry_views(directory.bridges@) == enabled_of(
                entry_views(self.spec_config().bridges@),
            ),
    {
        let ttl: i64 = to_signed(self.config.directory_ttl_secs);
        let ghost all = entry_views(self.config.bridges@);
        let mut bridges: Vec<BridgeEntry> = Vec::new();
        let mut i: usize = 0;
        assert(entry_views(bridges@) =~= enabled_of(all.take(0)));
        while i < self.config.bridges.len()
            invariant
                i <= self.config.bridges@.len(),
                all == entry_views(self.config.bridges@),
                entry_views(bridges@) == enabled_of(all.take(i as int)),
            decreases self.config.bridges@.len() - i,
        {
            let ghost listed = entry_views(bridges@);
            assert(all.take(i + 1).drop_last() =~= all.take(i as int));
            assert(all.take(i + 1).last() == self.config.bridges@[i as int]@);
            if self.config.bridges[i].enabled {
                bridges.push(self.config.bridges[i].duplicate());
                assert(entry_views(bridges@) =~= listed.push(self.config.bridges@[i as int]@));
            }
            i += 1;
        }
        assert(all.take(i as int) =~= all);
        BridgeDirectory {
            version: 1,
            issued_at_ns: now_ns,
            expires_at_ns: now_ns + ttl as i128 * 1_000_000_000,
            bridges,
        }
    }

    /// The license that a user gets at this time. The configured time of
    /// validity is read as a signed number of seconds.
    pub open spec fn license(self, user_id: u32, now_unix: i64) -> LicensePayload {
        LicensePayload {
            user_id,
            issued_at: now_unix,
            expires_at: (now_unix + signed_value(self.spec_config().token_ttl_secs as nat)) as i64,
            scope: 1,
        }
    }

    /// Signs a new user up: a user id, and a license token for any bridge, which
    /// verifies under the backend's public key until it expires.
    pub fn signup(&mut self, now_unix: i64) -> (r: SignupResponse)
        requires
            old(self).wf(),
            old(self).next_id() < u32::MAX,
            i64::MIN <= now_unix + signed_value(old(self).spec_config().token_ttl_secs as nat)
                <= i64::MAX,
        ensures
            final(self).wf(),
            final(self).next_id() == old(self).next_id() + 1,
            final(self).spec_config() == old(self).spec_config(),
            final(self).seed() == old(self).seed(),
            ({
                let license = old(self).license(old(self).next_id(), now_unix);
                &&& r.user_id == old(self).next_id()
                &&& r.expires_at_unix == license.expires_at
                &&& r.expires_at_unix == now_unix + signed_value(
                    old(self).spec_config().token_ttl_secs as nat,
                )
                &&& exists|token: LicenseToken|
                    #![trigger token.wire()]
                    {
                        &&& r.license_token@ == b64_text(token.wire())
                        &&& token.payload == license
                        &&& token.signature@ == ed25519_signature(old(self).seed(), license.wire())
                        &&& forall|now: i64| #[trigger]
                            token.verdict(ed25519_public(old(self).seed()), now)
                                == license.verdict(true, now)
                    }
            }),
    {
        let user_id: u32 = self.issue_user_id();
        let expires_at: i64 = (now_unix as i128 + to_signed(self.config.token_ttl_secs) as i128) as i64;
        let payload = LicensePayload { user_id, issued_at: now_unix, expires_at, scope: 1 };
        let token = LicenseToken::sign(payload, &self.signing_key);
        let license_token = token.to_string_b64();
        assert(license_token@ == b64_text(token.wire()));
        SignupResponse { user_id, license_token, expires_at_unix: expires_at }
    }
}

/// Every bridge that knows a backend's public key grants what is asked for with
/// a license of that backend, while the license is valid and there is room.
pub proof fn issued_license_is_granted(
    seed: Seq<u8>,
    token: LicenseToken,
    bridge: Bridge,
    tunnel: OpenedTunnel,
    client_secret: Seq<u8>,
    connection_id: u32,
    connect: ConnectRequest,
    now_unix: i64,
)
    requires
        forall|now: i64| #[trigger]
            token.verdict(ed25519_public(seed), now) == token.payload.verdict(true, now),
        token.payload.scope == 1,
        token.payload.issued_at <= now_unix < token.payload.expires_at,
        bridge.secret().len() == 32,
        bridge.backend() == ed25519_public(seed),
        bridge.sessions().len() < bridge.spec_config().max_sessions,
        opens_tunnel(
            tunnel,
            client_secret,
            connection_id,
            x25519_base(bridge.secret()),
            token.wire(),
            connect,
        ),
    ensures
        bridge.admission(tunnel.syn_wire@, now_unix) == Ok::<
            (Seq<u8>, LicensePayload, ConnectRequest),
            AdmitError,
        >((tunnel.aead_key@, token.payload, connect)),
{
    assert(token.verdict(ed25519_public(seed), now_unix) is Ok);
    opened_tunnel_is_granted(
        bridge,
        tunnel,
        client_secret,
        connection_id,
        token,
        connect,
        now_unix,
    );
}

// ---------- What the backend promises ----------

/// A license is issued at the time of the signup to the user it names, for any
/// bridge, and lives for as long as the configuration says: with an accepted
/// signature it is valid from its issue on, and until that time is over.
pub proof fn license_lives_as_configured(state: AppState, user_id: u32, now_unix: i64, then: i64)
    requires
        state.spec_config().token_ttl_secs <= i64::MAX,
        now_unix + state.spec_config().token_ttl_secs <= i64::MAX,
    ensures
        ({
            let license = state.license(user_id, now_unix);
            let ttl = state.spec_config().token_ttl_secs;
            &&& license.user_id == user_id
            &&& license.issued_at == now_unix
            &&& license.expires_at - license.issued_at == ttl
            &&& license.scope == 1
            &&& license.verdict(true, then) is Ok <==> now_unix <= then && then - now_unix < ttl
        }),
{
    bit_patterns_agree(state.spec_config().token_ttl_secs, 0);
}

/// Where the configured time, as a signed number, is negative, a license expires
/// before it is issued: the two times differ by that number in any case.
pub proof fn license_times_differ_by_the_configured(state: AppState, user_id: u32, now_unix: i64)
    requires
        i64::MIN <= now_unix + signed_value(state.spec_config().token_ttl_secs as nat) <= i64::MAX,
    ensures
        ({
            let license = state.license(user_id, now_unix);
            let ttl = state.spec_config().token_ttl_secs;
            &&& license.issued_at == now_unix
            &&& ttl <= i64::MAX ==> license.expires_at - license.issued_at == ttl
            &&& ttl > i64::MAX ==> license.expires_at - license.issued_at == ttl
                - 0x1_0000_0000_0000_0000
        }),
{
    bit_patterns_agree(state.spec_config().token_ttl_secs, 0);
}

/// A directory lists, of two lists of bridges one behind the other, what it would
/// list of each; and of a bridge alone that bridge, if it is enabled.
pub proof fn bridges_are_listed_in_order(
    a: Seq<BridgeEntryView>,
    b: Seq<BridgeEntryView>,
    one: BridgeEntryView,
)
    ensures
        enabled_of(a + b) == enabled_of(a) + enabled_of(b),
        one.enabled ==> enabled_of(seq![one]) == seq![one],
        !one.enabled ==> enabled_of(seq![one]) == Seq::<BridgeEntryView>::empty(),
    decreases b.len(),
{
    reveal_with_fuel(enabled_of, 2);
    assert(seq![one].drop_last() =~= Seq::<BridgeEntryView>::empty());
    if one.enabled {
        assert(enabled_of(seq![one]) =~= seq![one]);
    }
    if b.len() == 0 {
        assert(a + b =~= a);
    } else {
        bridges_are_listed_in_order(a, b.drop_last(), one);
        assert((a + b).drop_last() =~= a + b.drop_last());
    }
    assert(enabled_of(a + b) =~= enabled_of(a) + enabled_of(b));
}

/// Nothing of an entry is left out of what it says, and nothing of a list.
pub proof fn entries_say_all_their_fields(b: BridgeEntry, i: int, list: Seq<BridgeEntry>, j: int)
    ensures
        b@.id == b.id@,
        b@.name == b.name@,
        b@.region == b.region@,
        b@.zone == b.zone@,
        b@.endpoint == b.endpoint,
        b@.pubkey_hex == b.pubkey_hex@,
        b@.game_zones.len() == b.game_zones@.len(),
        0 <= i < b.game_zones@.len() ==> b@.game_zones[i] == b.game_zones@[i]@,
        b@.enabled == b.enabled,
        entry_views(list).len() == list.len(),
        0 <= j < list.len() ==> entry_views(list)[j] == list[j]@,
{
}

/// A signed directory is accepted exactly where the signature is 64 bytes and the
/// backend's key accepts it for the document, which is then given; one of another
/// length is refused for that, with the length.
pub proof fn directory_is_accepted_if_signed(
    r: Result<Vec<u8>, VerifyError>,
    payload: Seq<u8>,
    signature: Seq<u8>,
    backend_pubkey: Seq<u8>,
)
    requires
        directory_outcome(r, b64_text(payload), b64_text(signature), backend_pubkey),
    ensures
        r is Ok <==> signature.len() == 64 && ed25519_accepts(backend_pubkey, payload, signature),
        r matches Ok(bytes) ==> bytes@ == payload,
        signature.len() != 64 ==> (r matches Err(VerifyError::BadSignatureLength(n)) && n
            == signature.len()),
        signature.len() == 64 && r is Err ==> (r matches Err(VerifyError::BadSignature)),
{
    b64_round_trip(payload);
    b64_round_trip(signature);
}

/// A directory whose document or signature is not base64 is refused for that, the
/// document before the signature.
pub proof fn directory_has_to_be_base64(
    r: Result<Vec<u8>, VerifyError>,
    payload_b64: Seq<char>,
    signature_b64: Seq<char>,
    backend_pubkey: Seq<u8>,
)
    requires
        directory_outcome(r, payload_b64, signature_b64, backend_pubkey),
    ensures
        (forall|bytes: Seq<u8>| #[trigger] b64_text(bytes) != payload_b64) ==> (r matches Err(
            VerifyError::Base64(m),
        ) && m@ == b64_refusal(payload_b64)),
        (exists|bytes: Seq<u8>| #[trigger] b64_text(bytes) == payload_b64) && (forall|bytes: Seq<u8>|
            #[trigger] b64_text(bytes) != signature_b64) ==> (r matches Err(
            VerifyError::Base64(m),
        ) && m@ == b64_refusal(signature_b64)),
{
}

} // verus!
