//! The node's configuration: its identity (x25519 and ed25519 keys), the
//! servers and networks it has joined, and where these are kept.

use vstd::prelude::*;
use vstd::string::*;
use vstd::utf8::*;
use crate::crypto::{
    base64_decode, base64_decoded, base64_encode, base64_encoded, ed25519_generate,
    ed25519_public_key_of, ed25519_sign, ed25519_signature_of, random_bytes_16, unix_time_secs,
    x25519_public_key, x25519_public_key_of, x25519_random_secret,
};
use crate::protobuf::{EncryptRequest, clone_strings};
use crate::text::{chars_of, decimal_digits, decimal_string, join_strings, joined};

verus! {

/// File name of the saved configuration, inside the configuration directory.
pub const SERVER_SAVE_NAME: &'static str = "config.json";

/// File name of the public keys, inside the configuration directory.
pub const IDENTITY_PUB_FILE_NAME: &'static str = "id_curve25519.pub";

/// File name of the secret keys, inside the configuration directory.
pub const IDENTITY_PRIVATE_FILE_NAME: &'static str = "id_curve25519.key";

/// `dir` joined with the relative path `name` (`Path::join` on Unix): a
/// separator goes between them unless `dir` is empty or already ends in one.
pub open spec fn path_joined(dir: Seq<char>, name: Seq<char>) -> Seq<char> {
    if dir.len() == 0 || dir.last() == '/' {
        dir + name
    } else {
        dir + seq!['/'] + name
    }
}

/// Joins the directory `dir` with the relative path `name`.
pub fn join_path(dir: &str, name: &str) -> (r: String)
    ensures
        r@ == path_joined(dir@, name@),
{
    let cs = chars_of(dir);
    let mut r = dir.to_owned();
    if cs.len() > 0 && cs[cs.len() - 1] != '/' {
        r.append("/");
        proof {
            reveal_strlit("/");
        }
    }
    r.append(name);
    proof {
        if !(dir@.len() == 0 || dir@.last() == '/') {
            assert(r@ =~= dir@ + seq!['/'] + name@);
        }
    }
    r
}

/// Whether something exists at `path` (`std::path::Path::exists`). It
/// depends on the disk: nothing is promised of the result.
#[verifier::external_body]
pub(crate) fn path_exists(path: &str) -> bool {
    std::path::Path::new(path).exists()
}

/// A network the node is part of, and the name of its tunnel device.
pub struct NetworkInfo {
    pub network_id: String,
    pub tun_name: Option<String>,
}

impl NetworkInfo {
    /// A network whose tunnel has no name yet.
    pub fn new(network_id: String) -> (r: NetworkInfo)
        ensures
            r.network_id@ == network_id@,
            r.tun_name is None,
    {
        NetworkInfo { network_id, tun_name: None }
    }
}

/// A control server the node has joined, and the networks it joined there.
pub struct ServerInfo {
    pub server_url: String,
    pub device_id: String,
    pub mqtt_url: String,
    pub network_id: Vec<String>,
}

pub type ServerInfoView = (Seq<char>, Seq<char>, Seq<char>, Seq<Seq<char>>);

impl DeepView for ServerInfo {
    type V = ServerInfoView;

    open spec fn deep_view(&self) -> ServerInfoView {
        (self.server_url@, self.device_id@, self.mqtt_url@, self.network_id.deep_view())
    }
}

impl ServerInfo {
    /// A copy with the same content.
    pub fn duplicate(&self) -> (r: ServerInfo)
        ensures
            r.deep_view() == self.deep_view(),
    {
        ServerInfo {
            server_url: self.server_url.clone(),
            device_id: self.device_id.clone(),
            mqtt_url: self.mqtt_url.clone(),
            network_id: clone_strings(&self.network_id),
        }
    }
}

/// The saved configuration of a node that takes part in several networks.
pub struct ServerConfig {
    pub server_url: String,
    pub device_id: String,
    pub mqtt_url: String,
    pub info: Vec<NetworkInfo>,
}

impl ServerConfig {
    /// Whether the saved configuration exists in `config_dir`. It depends on
    /// the disk: nothing is promised of the result.
    pub fn exits(config_dir: &str) -> bool {
        path_exists(Self::config_file_path(config_dir).as_str())
    }

    /// Where the configuration is saved in `config_dir`.
    pub fn config_file_path(config_dir: &str) -> (r: String)
        ensures
            r@ == path_joined(config_dir@, SERVER_SAVE_NAME@),
    {
        join_path(config_dir, SERVER_SAVE_NAME)
    }
}

/// The saved configuration of a node: the servers it joined, and the name of
/// its tunnel device.
pub struct LocalConfig {
    pub server_info: Vec<ServerInfo>,
    pub tun_name: Option<String>,
}

impl LocalConfig {
    /// The servers joined, by content.
    pub open spec fn servers(&self) -> Seq<ServerInfoView> {
        self.server_info.deep_view()
    }

    /// No server joined yet; the tunnel is named `for0` (as on Linux).
    pub fn new() -> (r: LocalConfig)
        ensures
            r.servers() == Seq::<ServerInfoView>::empty(),
            r.tun_name.deep_view() == Some("for0"@),
    {
        let r = LocalConfig { server_info: Vec::new(), tun_name: Some("for0".to_owned()) };
        proof {
            assert(r.servers() =~= Seq::<ServerInfoView>::empty());
        }
        r
    }

    /// Whether the saved configuration exists in `config_dir`. It depends on
    /// the disk: nothing is promised of the result.
    pub fn exits(config_dir: &str) -> bool {
        path_exists(Self::config_file_path(config_dir).as_str())
    }

    /// Where the configuration is saved in `config_dir`.
    pub fn config_file_path(config_dir: &str) -> (r: String)
        ensures
            r@ == path_joined(config_dir@, SERVER_SAVE_NAME@),
    {
        join_path(config_dir, SERVER_SAVE_NAME)
    }
}

/// The fields of an authentication request to the control server.
pub struct GRPCAuth {
    pub timestamp: u64,
    pub network_id: String,
    pub nonce: String,
    pub sign: String,
    pub public_key: String,
}

/// The content of an identity.
pub struct IdentityView {
    pub x25519_pk: Seq<u8>,
    pub x25519_sk: Seq<u8>,
    pub ed25519_pk: Seq<u8>,
    pub ed25519_sk: Seq<u8>,
    pub pk_base64: Seq<char>,
}

/// The key pairs of a node: an x25519 pair for WireGuard and an ed25519 pair
/// to sign requests, with both public keys in base64.
pub struct Identity {
    pub x25519_pk: [u8; 32],
    pub x25519_sk: [u8; 32],
    pub ed25519_pk: [u8; 32],
    pub ed25519_sk: [u8; 64],
    pub pk_base64: String,
}

/// The bytes of the two key files of an identity: public keys, then secret
/// keys (the x25519 secret, then the ed25519 seed).
pub open spec fn key_files(id: IdentityView) -> (Seq<u8>, Seq<u8>) {
    (id.x25519_pk + id.ed25519_pk, id.x25519_sk + id.ed25519_sk.subrange(0, 32))
}

/// The identity that two key files hold. The ed25519 secret key is the seed
/// followed by the public key; the base64 text covers the whole public file.
pub open spec fn identity_from_key_files(public_key: Seq<u8>, private_key: Seq<u8>) -> IdentityView {
    IdentityView {
        x25519_pk: public_key.subrange(0, 32),
        x25519_sk: private_key.subrange(0, 32),
        ed25519_pk: public_key.subrange(32, 64),
        ed25519_sk: private_key.subrange(32, 64) + public_key.subrange(32, 64),
        pk_base64: base64_encoded(public_key),
    }
}

/// The text that `Identity::sign` signs: the parameters, a nonce and a
/// timestamp, separated by `|`.
pub open spec fn sign_plain_text(params: Seq<Seq<char>>, nonce: Seq<char>, timestamp: u64) -> Seq<
    char,
> {
    joined(params + seq![nonce, decimal_digits(timestamp as nat)], "|"@)
}

/// Why a request could not be signed.
#[derive(PartialEq, Eq, Structural, Clone, Copy, Debug)]
pub enum SignError {
    /// The system clock stands before the Unix epoch.
    ClockBeforeEpoch,
}

/// Why a base64 public identity could not be read.
#[derive(PartialEq, Eq, Structural, Clone, Copy, Debug)]
pub enum IdentityError {
    /// The text is not base64.
    Base64,
    /// The decoded text is shorter than the two 32-byte keys.
    TooShort,
}

/// The 32 bytes of `bytes` from `start` on.
pub fn array32_at(bytes: &[u8], start: usize) -> (r: [u8; 32])
    requires
        start + 32 <= bytes@.len(),
    ensures
        r@ == bytes@.subrange(start as int, start + 32),
{
    let mut r = [0u8; 32];
    let mut i: usize = 0;
    while i < 32
        invariant
            i <= 32,
            start + 32 <= bytes@.len(),
            bytes@.len() == bytes.len(),
            forall|k: int| 0 <= k < i ==> r@[k] == bytes@[start + k],
        decreases 32 - i,
    {
        r[i] = bytes[start + i];
        i = i + 1;
    }
    proof {
        assert(r@ =~= bytes@.subrange(start as int, start + 32));
    }
    r
}

/// `a` followed by `b`.
pub fn concat_bytes(a: &[u8], b: &[u8]) -> (r: Vec<u8>)
    ensures
        r@ == a@ + b@,
{
    let mut r: Vec<u8> = Vec::new();
    let mut i: usize = 0;
    while i < a.len()
        invariant
            i <= a@.len(),
            r@ == a@.subrange(0, i as int),
        decreases a.len() - i,
    {
        r.push(a[i]);
        i = i + 1;
        proof {
            assert(r@ =~= a@.subrange(0, i as int));
        }
    }
    let mut j: usize = 0;
    while j < b.len()
        invariant
            j <= b@.len(),
            r@ == a@ + b@.subrange(0, j as int),
        decreases b.len() - j,
    {
        r.push(b[j]);
        j = j + 1;
        proof {
            assert(r@ =~= a@ + b@.subrange(0, j as int));
        }
    }
    proof {
        assert(b@.subrange(0, b@.len() as int) =~= b@);
    }
    r
}

/// The public half of an identity: the x25519 key and the ed25519 key, the
/// first 64 bytes of the decoded text.
pub fn pub_identity_from_bytes(bytes: &[u8]) -> (r: ([u8; 32], [u8; 32]))
    requires
        bytes@.len() >= 64,
    ensures
        r.0@ == bytes@.subrange(0, 32),
        r.1@ == bytes@.subrange(32, 64),
{
    (array32_at(bytes, 0), array32_at(bytes, 32))
}

impl Identity {
    pub open spec fn view(&self) -> IdentityView {
        IdentityView {
            x25519_pk: self.x25519_pk@,
            x25519_sk: self.x25519_sk@,
            ed25519_pk: self.ed25519_pk@,
            ed25519_sk: self.ed25519_sk@,
            pk_base64: self.pk_base64@,
        }
    }

    /// The keys belong together: the ed25519 secret key ends with its public
    /// key, and the base64 text is that of the two public keys.
    pub open spec fn wf(&self) -> bool {
        well_formed_identity(self.view())
    }

    /// A fresh identity with random keys.
    pub fn new() -> (r: Identity)
        ensures
            r.wf(),
            r.x25519_pk@ == x25519_public_key_of(r.x25519_sk@),
            r.ed25519_pk@ == ed25519_public_key_of(r.ed25519_sk@.subrange(0, 32)),
    {
        let x25519_sk = x25519_random_secret();
        let x25519_pk = x25519_public_key(&x25519_sk);
        let (ed25519_pk, ed25519_sk) = ed25519_generate();
        let public_key = concat_bytes(&x25519_pk, &ed25519_pk);
        Identity {
            pk_base64: base64_encode(public_key.as_slice()),
            x25519_pk,
            x25519_sk,
            ed25519_sk,
            ed25519_pk,
        }
    }

    /// The identity held by the two key files, once they are read. Files shorter than 64 bytes are broken ones, which `requires`
    /// leaves out.
    pub fn from_key_files(public_key: &[u8], private_key: &[u8]) -> (r: Identity)
        requires
            public_key@.len() >= 64,
            private_key@.len() >= 64,
            public_key@.len() / 3 * 4 + 4 <= usize::MAX,
        ensures
            r.view() == identity_from_key_files(public_key@, private_key@),
            base64_decoded(r.pk_base64@) == Some(public_key@),
    {
        let x25519_pk = array32_at(public_key, 0);
        let x25519_sk = array32_at(private_key, 0);
        let ed25519_pk = array32_at(public_key, 32);
        let mut ed25519_sk = [0u8; 64];
        let mut i: usize = 0;
        while i < 32
            invariant
                i <= 32,
                public_key@.len() >= 64,
                private_key@.len() >= 64,
                forall|k: int| 0 <= k < i ==> #[trigger] ed25519_sk@[k] == private_key@[32 + k],
                forall|k: int| 32 <= k < 32 + i ==> #[trigger] ed25519_sk@[k] == public_key@[k],
            decreases 32 - i,
        {
            ed25519_sk[i] = private_key[32 + i];
            ed25519_sk[32 + i] = public_key[32 + i];
            i = i + 1;
        }
        proof {
            assert(ed25519_sk@ =~= private_key@.subrange(32, 64) + public_key@.subrange(32, 64));
        }
        Identity {
            x25519_pk,
            x25519_sk,
            ed25519_sk,
            pk_base64: base64_encode(public_key),
            ed25519_pk,
        }
    }

    /// The bytes to write to the public and to the secret key file.
    pub fn key_files(&self) -> (r: (Vec<u8>, Vec<u8>))
        ensures
            (r.0@, r.1@) == key_files(self.view()),
    {
        let public_key = concat_bytes(&self.x25519_pk, &self.ed25519_pk);
        let seed = array32_at(&self.ed25519_sk, 0);
        let private_key = concat_bytes(&self.x25519_sk, &seed);
        (public_key, private_key)
    }

    /// The two public keys of a peer, from their base64 text. Fails where the
    /// text is not base64; a decoded text shorter than 64 bytes holds no
    /// keys, and `requires` leaves it out (see
    /// `try_get_pub_identity_from_base64`).
    pub fn get_pub_identity_from_base64(base64_str: &str) -> (r: Result<
        ([u8; 32], [u8; 32]),
        IdentityError,
    >)
        requires
            base64_decoded(base64_str@) matches Some(b) ==> b.len() >= 64,
        ensures
            match base64_decoded(base64_str@) {
                None => r == Err::<([u8; 32], [u8; 32]), IdentityError>(IdentityError::Base64),
                Some(b) => r matches Ok(keys) && keys.0@ == b.subrange(0, 32) && keys.1@
                    == b.subrange(32, 64),
            },
    {
        match base64_decode(base64_str) {
            None => Err(IdentityError::Base64),
            Some(bytes) => Ok(pub_identity_from_bytes(bytes.as_slice())),
        }
    }

    /// `get_pub_identity_from_base64` with the length of the decoded text
    /// tested first: `TooShort` where it holds no keys.
    pub fn try_get_pub_identity_from_base64(base64_str: &str) -> (r: Result<
        ([u8; 32], [u8; 32]),
        IdentityError,
    >)
        ensures
            match base64_decoded(base64_str@) {
                None => r == Err::<([u8; 32], [u8; 32]), IdentityError>(IdentityError::Base64),
                Some(b) => if b.len() < 64 {
                    r == Err::<([u8; 32], [u8; 32]), IdentityError>(IdentityError::TooShort)
                } else {
                    r matches Ok(keys) && keys.0@ == b.subrange(0, 32) && keys.1@ == b.subrange(
                        32,
                        64,
                    )
                },
            },
    {
        match base64_decode(base64_str) {
            None => Err(IdentityError::Base64),
            Some(bytes) => {
                if bytes.len() < 64 {
                    Err(IdentityError::TooShort)
                } else {
                    Self::get_pub_identity_from_base64(base64_str)
                }
            },
        }
    }

    /// The identity written out, every key in base64:
    /// `Identity(x_sk:.., x_pk:.., ed_sk:.., ed_pk:..)`.
    pub fn debug_text(&self) -> (r: String)
        ensures
            r@ == "Identity(x_sk:"@ + base64_encoded(self.x25519_sk@) + ", x_pk:"@ + base64_encoded(
                self.x25519_pk@,
            ) + ", ed_sk:"@ + base64_encoded(self.ed25519_sk@) + ", ed_pk:"@ + base64_encoded(
                self.ed25519_pk@,
            ) + ")"@,
    {
        let mut r = "Identity(x_sk:".to_owned();
        r.append(base64_encode(&self.x25519_sk).as_str());
        r.append(", x_pk:");
        r.append(base64_encode(&self.x25519_pk).as_str());
        r.append(", ed_sk:");
        r.append(base64_encode(&self.ed25519_sk).as_str());
        r.append(", ed_pk:");
        r.append(base64_encode(&self.ed25519_pk).as_str());
        r.append(")");
        r
    }

    /// Signs `params` with a fresh random nonce and the current time: the
    /// signature covers `sign_plain_text(params, nonce, timestamp)`.
    pub fn sign(&self, params: Vec<String>) -> (r: Result<EncryptRequest, SignError>)
        ensures
            r matches Ok(req) ==> {
                &&& req.public_key@ == self.pk_base64@
                &&& exists|raw: Seq<u8>| raw.len() == 16 && req.nonce@ == base64_encoded(raw)
                &&& req.nonce@.len() == 24
                &&& req.signature@ == base64_encoded(
                    ed25519_signature_of(
                        self.ed25519_sk@,
                        encode_utf8(
                            sign_plain_text(
                                params.deep_view(),
                                req.nonce@,
                                req.timestamp,
                            ),
                        ),
                    ),
                )
            },
    {
        let raw = random_bytes_16();
        let nonce = base64_encode(&raw);
        let timestamp = match unix_time_secs() {
            Some(t) => t,
            None => return Err(SignError::ClockBeforeEpoch),
        };
        let plain_text = sign_text(&params, nonce.as_str(), timestamp);
        let signature = ed25519_sign(&self.ed25519_sk, plain_text.as_str());
        let signature = base64_encode(&signature);
        Ok(
            EncryptRequest {
                public_key: self.pk_base64.clone(),
                timestamp,
                nonce,
                signature,
            },
        )
    }
}

/// The keys of an identity belong together.
pub open spec fn well_formed_identity(id: IdentityView) -> bool {
    &&& id.x25519_pk.len() == 32
    &&& id.x25519_sk.len() == 32
    &&& id.ed25519_pk.len() == 32
    &&& id.ed25519_sk.len() == 64
    &&& id.ed25519_sk.subrange(32, 64) == id.ed25519_pk
    &&& id.pk_base64 == base64_encoded(id.x25519_pk + id.ed25519_pk)
    &&& base64_decoded(id.pk_base64) == Some(id.x25519_pk + id.ed25519_pk)
}

proof fn lemma_joined_push(parts: Seq<Seq<char>>, x: Seq<char>, sep: Seq<char>)
    requires
        parts.len() > 0,
    ensures
        joined(parts.push(x), sep) == joined(parts, sep) + sep + x,
{
    assert(parts.push(x).drop_last() =~= parts);
}

/// The text to sign: the parameters, the nonce and the timestamp, joined
/// with `|`.
pub fn sign_text(params: &Vec<String>, nonce: &str, timestamp: u64) -> (r: String)
    ensures
        r@ == sign_plain_text(params.deep_view(), nonce@, timestamp),
{
    let ts = decimal_string(timestamp);
    let ghost ps = params.deep_view();
    proof {
        reveal_strlit("|");
        assert(ps =~= params@.map_values(|x: String| x@));
    }
    if params.len() > 0 {
        let mut plain_text = join_strings(params, "|");
        plain_text.append("|");
        plain_text.append(nonce);
        plain_text.append("|");
        plain_text.append(ts.as_str());
        proof {
            lemma_joined_push(ps, nonce@, "|"@);
            lemma_joined_push(ps.push(nonce@), ts@, "|"@);
            assert(ps + seq![nonce@, ts@] =~= ps.push(nonce@).push(ts@));
            assert(plain_text@ =~= joined(ps, "|"@) + "|"@ + nonce@ + "|"@ + ts@);
        }
        plain_text
    } else {
        let mut plain_text = nonce.to_owned();
        plain_text.append("|");
        plain_text.append(ts.as_str());
        proof {
            assert(ps + seq![nonce@, ts@] =~= seq![nonce@].push(ts@));
            lemma_joined_push(seq![nonce@], ts@, "|"@);
        }
        plain_text
    }
}

/// Law: saving an identity and reading it back gives the same identity.
pub proof fn law_key_files_round_trip(id: IdentityView)
    requires
        well_formed_identity(id),
    ensures
        identity_from_key_files(key_files(id).0, key_files(id).1) == id,
{
    let (p, s) = key_files(id);
    assert(p.subrange(0, 32) =~= id.x25519_pk);
    assert(p.subrange(32, 64) =~= id.ed25519_pk);
    assert(s.subrange(0, 32) =~= id.x25519_sk);
    assert(s.subrange(32, 64) + p.subrange(32, 64) =~= id.ed25519_sk);
}

/// Law: the base64 public identity of a node decodes to its two public keys,
/// which is what a peer reads back with `get_pub_identity_from_base64`.
pub proof fn law_pub_identity_round_trip(id: IdentityView, text: Seq<char>)
    requires
        well_formed_identity(id),
        text == id.pk_base64,
    ensures
        base64_decoded(text) matches Some(b) && b.len() >= 64 && b.subrange(0, 32) == id.x25519_pk
            && b.subrange(32, 64) == id.ed25519_pk,
{
    assert((id.x25519_pk + id.ed25519_pk).subrange(0, 32) =~= id.x25519_pk);
    assert((id.x25519_pk + id.ed25519_pk).subrange(32, 64) =~= id.ed25519_pk);
}

/// The configuration of a running client: where it is kept, the node's
/// identity, and the servers it joined.
pub struct AppConfig {
    pub config_path: String,
    pub identity: Identity,
    pub local_config: LocalConfig,
}

} // verus!
