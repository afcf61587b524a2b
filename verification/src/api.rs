//! The local API: invite tokens, the answers written back on the command
//! socket, and the commands the socket understands.

use vstd::prelude::*;
use vstd::string::*;
use vstd::utf8::*;
use crate::crypto::{base64_decode, base64_decoded, json_string, json_string_literal, utf8_string};
use crate::wr_manager::DeviceInfoResp;
use crate::text::{chars_of, parse_unsigned, parse_unsigned_chars, split_on, split_str};

verus! {

/// A client of the command socket of a running node.
pub struct ApiClient {
    pub path: String,
}

impl ApiClient {
    /// A client of the socket at `path`.
    pub fn new(path: String) -> (r: ApiClient)
        ensures
            r.path@ == path@,
    {
        ApiClient { path }
    }

    /// The command that joins a network with an invite code.
    pub fn join_network_command(&self, invite_code: &str) -> (r: String)
        ensures
            r@ == "join "@ + invite_code@,
    {
        let mut r = "join ".to_owned();
        r.append(invite_code);
        r
    }

    /// The command that lists the networks joined.
    pub fn list_network_command(&self) -> (r: String)
        ensures
            r@ == "list"@,
    {
        "list".to_owned()
    }

    /// The command that manages launching at boot.
    pub fn auto_launch_command(&self, sub_command: &str) -> (r: String)
        ensures
            r@ == "autoLaunch "@ + sub_command@,
    {
        let mut r = "autoLaunch ".to_owned();
        r.append(sub_command);
        r
    }
}

/// A device-authorization grant started with the SSO server.
pub struct OAuthDevice {
    pub device_code: String,
    pub user_code: String,
    pub verification_uri: String,
    pub verification_uri_complete: String,
    pub expires_in: u32,
    pub interval: u32,
}

/// The token the SSO server hands out once the user has logged in.
pub struct OAuthDeviceJWToken {
    pub access_token: String,
    pub expires_in: u32,
}

/// Where and how a node logs in through SSO to join a network.
pub struct SSOLogin {
    pub endpoint: String,
    pub network_token_id: String,
    pub sso_url: String,
    pub realm: String,
    pub client_id: String,
}

/// How many times the login is polled before giving up: one poll every
/// `interval + 1` seconds while the grant lasts, less one. It is computed in
/// `u32`, which overflows when `interval + 1` does or when the grant is
/// shorter than one wait; `requires` leaves both out.
pub fn sso_max_retry(response: &OAuthDevice) -> (r: u32)
    requires
        response.interval < u32::MAX,
        response.expires_in as int / (response.interval as int + 1) >= 1,
    ensures
        r == response.expires_in as int / (response.interval as int + 1) - 1,
{
    response.expires_in / (response.interval + 1) - 1
}

/// What the user is told first when logging in through SSO: to open the
/// verification page and type in the device code; it is written to the
/// command socket as a successful reply.
pub open spec fn sso_prompt_text(uri: Seq<char>, device_code: Seq<char>) -> Seq<char> {
    "please open browser with "@ + uri + " to login, and type in device code: "@ + device_code
}

/// The reply that tells the user how to log in for the grant `response`.
pub fn sso_prompt(response: &OAuthDevice) -> (r: String)
    ensures
        r@ == response_json(
            true,
            json_string(sso_prompt_text(response.verification_uri_complete@, response.device_code@)),
        ),
{
    let mut m = "please open browser with ".to_owned();
    m.append(response.verification_uri_complete.as_str());
    m.append(" to login, and type in device code: ");
    m.append(response.device_code.as_str());
    api_success(m).to_json()
}

/// The error the login ends with when no poll found the user logged in.
pub fn sso_expired_message() -> (r: String)
    ensures
        r@ == "this login cost more time than expected, please try again"@,
{
    "this login cost more time than expected, please try again".to_owned()
}

/// The decoded fields of an invite token.
pub struct InviteToken {
    pub endpoint: String,
    pub network_token_id: String,
    pub node_id: Option<String>,
}

impl InviteToken {
    /// The token made of the `|`-separated fields `data` (version first).
    /// There must be at least three fields.
    pub fn new(data: Vec<&str>) -> (r: InviteToken)
        requires
            data@.len() >= 3,
        ensures
            r.endpoint@ == data@[1]@,
            r.network_token_id@ == data@[2]@,
            data@.len() > 3 ==> (r.node_id matches Some(n) && n@ == data@[3]@),
            data@.len() <= 3 ==> r.node_id is None,
    {
        let endpoint = data[1].to_owned();
        let network_token_id = data[2].to_owned();
        let node_id = if data.len() > 3 {
            Some(data[3].to_owned())
        } else {
            None
        };
        InviteToken { endpoint, network_token_id, node_id }
    }
}

/// Why an invite token could not be read.
#[derive(PartialEq, Eq, Structural, Clone, Copy, Debug)]
pub enum InviteError {
    /// The token is not base64.
    Base64,
    /// The decoded token is not UTF-8.
    Utf8,
    /// The version field is not a number.
    Version,
    /// The version is not one this client reads.
    Unsupported,
    /// The token has fewer than three fields.
    MissingFields,
}

/// The text an invite code decodes to: base64, then UTF-8.
pub open spec fn invite_text(code: Seq<char>) -> Option<Seq<char>> {
    match base64_decoded(code) {
        Some(b) => if valid_utf8(b) {
            Some(decode_utf8(b))
        } else {
            None
        },
        None => None,
    }
}

/// The fields of an invite text, `version|endpoint|network|node`.
pub open spec fn invite_fields(text: Seq<char>) -> Seq<Seq<char>> {
    split_on(text, '|')
}

/// The version of an invite text, where its first field is a `u32`.
pub open spec fn invite_version(text: Seq<char>) -> Option<nat> {
    parse_unsigned(invite_fields(text)[0], u32::MAX as nat)
}

/// The invite texts that can be read: a version that is not a number is an
/// error; a known version needs three fields.
pub open spec fn invite_text_readable(text: Seq<char>) -> bool {
    invite_version(text) matches Some(v) ==> (v == 1 || v == 2) && invite_fields(text).len() >= 3
}

/// Decodes an invite code to its text.
pub fn decode_invite_code(code: &str) -> (r: Result<String, InviteError>)
    ensures
        match base64_decoded(code@) {
            None => r == Err::<String, InviteError>(InviteError::Base64),
            Some(b) => if valid_utf8(b) {
                r matches Ok(t) && t@ == decode_utf8(b)
            } else {
                r == Err::<String, InviteError>(InviteError::Utf8)
            },
        },
{
    match base64_decode(code) {
        None => Err(InviteError::Base64),
        Some(bytes) => match utf8_string(bytes) {
            None => Err(InviteError::Utf8),
            Some(text) => Ok(text),
        },
    }
}

/// The fields of a decoded invite text: version, endpoint, network and the
/// optional node. A version other than 1 and 2 asks for a newer client, and
/// fewer than three fields is a broken token; `requires` leaves those out.
pub fn parse_invite_text(text: &str) -> (r: Result<(u32, String, String, Option<String>), InviteError>)
    requires
        invite_text_readable(text@),
    ensures
        match invite_version(text@) {
            None => r == Err::<(u32, String, String, Option<String>), InviteError>(
                InviteError::Version,
            ),
            Some(v) => r matches Ok(t) && t.0 == v && t.1@ == invite_fields(text@)[1] && t.2@
                == invite_fields(text@)[2] && (invite_fields(text@).len() > 3 ==> (t.3 matches Some(n) && n@
                == invite_fields(text@)[3])) && (invite_fields(text@).len() <= 3 ==> t.3 is None),
        },
{
    let data = split_str(text, '|');
    proof {
        crate::text::lemma_split_on_nonempty(text@, '|');
        assert(data@.len() == invite_fields(text@).len());
        assert(data@[0]@ == invite_fields(text@)[0]);
    }
    let first = chars_of(data[0]);
    let version = match parse_unsigned_chars(first.as_slice(), 0xffff_ffff) {
        Some(v) => v as u32,
        None => return Err(InviteError::Version),
    };
    proof {
        assert(data@[1]@ == invite_fields(text@)[1]);
        assert(data@[2]@ == invite_fields(text@)[2]);
        if data@.len() > 3 {
            assert(data@[3]@ == invite_fields(text@)[3]);
        }
    }
    let endpoint = data[1].to_owned();
    let network_id = data[2].to_owned();
    let node_id = if data.len() > 3 {
        Some(data[3].to_owned())
    } else {
        None
    };
    Ok((version, endpoint, network_id, node_id))
}

/// Decodes an invite code and reads its fields (`invite_token_parse`). A
/// decoded text that cannot be read is left out by `requires` (see
/// `try_invite_token_parse`).
pub fn invite_token_parse(data: &str) -> (r: Result<(u32, String, String, Option<String>), InviteError>)
    requires
        invite_text(data@) matches Some(t) ==> invite_text_readable(t),
    ensures
        base64_decoded(data@) is None ==> r == Err::<(u32, String, String, Option<String>), InviteError>(
            InviteError::Base64,
        ),
        base64_decoded(data@) matches Some(b) && !valid_utf8(b) ==> r == Err::<
            (u32, String, String, Option<String>),
            InviteError,
        >(InviteError::Utf8),
        invite_text(data@) matches Some(t) ==> match invite_version(t) {
            None => r == Err::<(u32, String, String, Option<String>), InviteError>(
                InviteError::Version,
            ),
            Some(v) => r matches Ok(f) && f.0 == v && f.1@ == invite_fields(t)[1] && f.2@
                == invite_fields(t)[2] && (invite_fields(t).len() > 3 ==> (f.3 matches Some(n) && n@
                == invite_fields(t)[3])) && (invite_fields(t).len() <= 3 ==> f.3 is None),
        },
{
    let text = decode_invite_code(data)?;
    parse_invite_text(text.as_str())
}

/// Whether an invite text can be read.
pub fn invite_text_is_readable(text: &str) -> (r: bool)
    ensures
        r == invite_text_readable(text@),
{
    let data = split_str(text, '|');
    proof {
        crate::text::lemma_split_on_nonempty(text@, '|');
        assert(data@.len() == invite_fields(text@).len());
        assert(data@[0]@ == invite_fields(text@)[0]);
    }
    let first = chars_of(data[0]);
    match parse_unsigned_chars(first.as_slice(), 0xffff_ffff) {
        Some(v) => (v == 1 || v == 2) && data.len() >= 3,
        None => true,
    }
}

/// `invite_token_parse` with the text tested first: `Unsupported` for a
/// version this client does not read, `MissingFields` for a broken token.
pub fn try_invite_token_parse(data: &str) -> (r: Result<(u32, String, String, Option<String>), InviteError>)
    ensures
        base64_decoded(data@) is None ==> r == Err::<(u32, String, String, Option<String>), InviteError>(
            InviteError::Base64,
        ),
        invite_text(data@) matches Some(t) ==> match invite_version(t) {
            None => r == Err::<(u32, String, String, Option<String>), InviteError>(
                InviteError::Version,
            ),
            Some(v) => if v != 1 && v != 2 {
                r == Err::<(u32, String, String, Option<String>), InviteError>(
                    InviteError::Unsupported,
                )
            } else if invite_fields(t).len() < 3 {
                r == Err::<(u32, String, String, Option<String>), InviteError>(
                    InviteError::MissingFields,
                )
            } else {
                r matches Ok(f) && f.0 == v && f.1@ == invite_fields(t)[1] && f.2@
                    == invite_fields(t)[2] && (invite_fields(t).len() > 3 ==> (f.3 matches Some(n) && n@
                    == invite_fields(t)[3])) && (invite_fields(t).len() <= 3 ==> f.3 is None)
            },
        },
{
    let text = decode_invite_code(data)?;
    let fields = split_str(text.as_str(), '|');
    proof {
        crate::text::lemma_split_on_nonempty(text@, '|');
        assert(fields@.len() == invite_fields(text@).len());
        assert(fields@[0]@ == invite_fields(text@)[0]);
    }
    let first = chars_of(fields[0]);
    match parse_unsigned_chars(first.as_slice(), 0xffff_ffff) {
        Some(v) => {
            if v != 1 && v != 2 {
                return Err(InviteError::Unsupported);
            }
            if fields.len() < 3 {
                return Err(InviteError::MissingFields);
            }
        },
        None => {},
    }
    parse_invite_text(text.as_str())
}

/// An answer on the command socket: whether the command succeeded, and its
/// data.
pub struct ApiResponse<B> {
    pub ok: bool,
    pub data: B,
}

impl<B> ApiResponse<B> {
    /// A successful answer carrying `data`, boxed.
    pub fn boxed(data: B) -> (r: Box<ApiResponse<B>>)
        ensures
            r.ok,
            r.data == data,
    {
        Box::new(ApiResponse { ok: true, data })
    }
}

/// An answer that can be written as JSON.
pub trait ApiJsonResponse {
    fn to_json(&self) -> String;
}

/// The JSON of an answer, with the data already as JSON: `{"ok":..,"data":..}`,
/// fields in declaration order, as the derived serializer writes it.
pub open spec fn response_json(ok: bool, data_json: Seq<char>) -> Seq<char> {
    "{\"ok\":"@ + (if ok { "true"@ } else { "false"@ }) + ",\"data\":"@ + data_json + "}"@
}

/// The JSON of a list of network entries: `[{"name":..},..]`.
pub open spec fn device_list_json(names: Seq<Seq<char>>) -> Seq<char>
    decreases names.len(),
{
    if names.len() == 0 {
        "[]"@
    } else {
        device_list_items_json(names) + "]"@
    }
}

/// `[` followed by the entries, separated by commas.
pub open spec fn device_list_items_json(names: Seq<Seq<char>>) -> Seq<char>
    decreases names.len(),
{
    if names.len() == 0 {
        "["@
    } else if names.len() == 1 {
        "["@ + device_json(names[0])
    } else {
        device_list_items_json(names.drop_last()) + ","@ + device_json(names.last())
    }
}

/// The JSON of one network entry.
pub open spec fn device_json(name: Seq<char>) -> Seq<char> {
    "{\"name\":"@ + json_string(name) + "}"@
}

fn response_json_exec(ok: bool, data_json: &str) -> (r: String)
    ensures
        r@ == response_json(ok, data_json@),
{
    let mut r = "{\"ok\":".to_owned();
    if ok {
        r.append("true");
    } else {
        r.append("false");
    }
    r.append(",\"data\":");
    r.append(data_json);
    r.append("}");
    r
}

impl ApiJsonResponse for ApiResponse<String> {
    /// `{"ok":..,"data":"..."}`.
    fn to_json(&self) -> (r: String)
        ensures
            r@ == response_json(self.ok, json_string(self.data@)),
    {
        let data = json_string_literal(self.data.as_str());
        response_json_exec(self.ok, data.as_str())
    }
}

impl ApiJsonResponse for ApiResponse<Vec<DeviceInfoResp>> {
    /// `{"ok":..,"data":[{"name":".."},..]}`.
    fn to_json(&self) -> (r: String)
        ensures
            r@ == response_json(
                self.ok,
                device_list_json(self.data@.map_values(|d: DeviceInfoResp| d.name@)),
            ),
    {
        let ghost names = self.data@.map_values(|d: DeviceInfoResp| d.name@);
        let mut items = "[".to_owned();
        let mut i: usize = 0;
        while i < self.data.len()
            invariant
                i <= self.data@.len(),
                names == self.data@.map_values(|d: DeviceInfoResp| d.name@),
                items@ == device_list_items_json(names.take(i as int)),
            decreases self.data.len() - i,
        {
            proof {
                assert(names.take(i + 1).drop_last() =~= names.take(i as int));
            }
            if i > 0 {
                items.append(",");
            }
            items.append("{\"name\":");
            let name = json_string_literal(self.data[i].name.as_str());
            items.append(name.as_str());
            items.append("}");
            proof {
                if i == 0 {
                    assert(names.take(1) =~= seq![names[0]]);
                    assert(items@ =~= device_list_items_json(names.take(1)));
                } else {
                    assert(items@ =~= device_list_items_json(names.take(i + 1)));
                }
            }
            i = i + 1;
        }
        proof {
            assert(names.take(self.data@.len() as int) =~= names);
        }
        let data = if self.data.len() == 0 {
            "[]".to_owned()
        } else {
            items.append("]");
            items
        };
        response_json_exec(self.ok, data.as_str())
    }
}

/// A failed answer carrying the message `data`.
pub fn api_error(data: String) -> (r: ApiResponse<String>)
    ensures
        !r.ok,
        r.data@ == data@,
{
    ApiResponse { ok: false, data }
}

/// A successful answer carrying the message `data`.
pub fn api_success(data: String) -> (r: ApiResponse<String>)
    ensures
        r.ok,
        r.data@ == data@,
{
    ApiResponse { ok: true, data }
}

/// A failed answer carrying the message `data`, boxed as an answer that can
/// be written as JSON.
pub fn api_box_error(data: String) -> (r: Box<ApiResponse<String>>)
    ensures
        !r.ok,
        r.data@ == data@,
{
    Box::new(api_error(data))
}

/// A command received on the command socket.
pub enum ApiCommand {
    /// `join <invite code>`
    Join(String),
    /// `list`
    List,
    /// `autoLaunch [sub command]`
    AutoLaunch(Option<String>),
    /// Anything else.
    Unknown,
}

/// The words of a command, cut at each space.
pub open spec fn command_words(command: Seq<char>) -> Seq<Seq<char>> {
    split_on(command, ' ')
}

/// The commands that can be handled: `join` needs its invite code.
pub open spec fn command_readable(command: Seq<char>) -> bool {
    command_words(command)[0] == "join"@ ==> command_words(command).len() >= 2
}

/// Reads a command from the socket: its first word names it, the second is
/// its argument.
pub fn parse_api_command(command: &str) -> (r: ApiCommand)
    requires
        command_readable(command@),
    ensures
        command_words(command@)[0] == "join"@ ==> (r matches ApiCommand::Join(code) && code@
            == command_words(command@)[1]),
        command_words(command@)[0] == "list"@ ==> r matches ApiCommand::List,
        command_words(command@)[0] == "autoLaunch"@ ==> (r matches ApiCommand::AutoLaunch(sub) && (
        command_words(command@).len() >= 2 ==> (sub matches Some(x) && x@ == command_words(
            command@,
        )[1])) && (command_words(command@).len() < 2 ==> sub is None)),
        command_words(command@)[0] != "join"@ && command_words(command@)[0] != "list"@ && command_words(
            command@,
        )[0] != "autoLaunch"@ ==> r matches ApiCommand::Unknown,
{
    let words = split_str(command, ' ');
    proof {
        crate::text::lemma_split_on_nonempty(command@, ' ');
        assert(words@.len() == command_words(command@).len());
        assert(words@[0]@ == command_words(command@)[0]);
        if words@.len() >= 2 {
            assert(words@[1]@ == command_words(command@)[1]);
        }
        reveal_strlit("join");
        reveal_strlit("list");
        reveal_strlit("autoLaunch");
        assert("join"@ != "list"@ && "join"@ != "autoLaunch"@ && "list"@ != "autoLaunch"@) by {
            assert("join"@.len() != "autoLaunch"@.len());
            assert("list"@.len() != "autoLaunch"@.len());
            assert("join"@[0] != "list"@[0]);
        }
    }
    let first = words[0].to_owned();
    if first == "join".to_owned() {
        ApiCommand::Join(words[1].to_owned())
    } else if first == "list".to_owned() {
        ApiCommand::List
    } else if first == "autoLaunch".to_owned() {
        if words.len() >= 2 {
            ApiCommand::AutoLaunch(Some(words[1].to_owned()))
        } else {
            ApiCommand::AutoLaunch(None)
        }
    } else {
        ApiCommand::Unknown
    }
}

/// Whether a command can be handled.
pub fn command_is_readable(command: &str) -> (r: bool)
    ensures
        r == command_readable(command@),
{
    let words = split_str(command, ' ');
    proof {
        crate::text::lemma_split_on_nonempty(command@, ' ');
        assert(words@.len() == command_words(command@).len());
        assert(words@[0]@ == command_words(command@)[0]);
    }
    words[0].to_owned() != "join".to_owned() || words.len() >= 2
}

} // verus!
