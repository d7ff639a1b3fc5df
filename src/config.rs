//! Saved connections: what is kept of each remote host, and the store of
//! them, ordered by name.

use vstd::prelude::*;
use vstd::utf8::{encode_utf8, encode_utf8_decode_utf8};
use crate::crypto::{decrypted, CryptoError, CryptoManager};

verus! {

broadcast use vstd::string::group_string_axioms;

/// `a` sorts before `b`, byte by byte: the order of `str`.
pub open spec fn bytes_before(a: Seq<u8>, b: Seq<u8>) -> bool
    decreases a.len(),
{
    if b.len() == 0 {
        false
    } else if a.len() == 0 {
        true
    } else if a[0] != b[0] {
        a[0] < b[0]
    } else {
        bytes_before(a.drop_first(), b.drop_first())
    }
}

/// No sequence sorts before itself.
pub proof fn lemma_before_irreflexive(a: Seq<u8>)
    ensures
        !bytes_before(a, a),
    decreases a.len(),
{
    if a.len() > 0 {
        lemma_before_irreflexive(a.drop_first());
    }
}

/// The order is transitive.
pub proof fn lemma_before_transitive(a: Seq<u8>, b: Seq<u8>, c: Seq<u8>)
    requires
        bytes_before(a, b),
        bytes_before(b, c),
    ensures
        bytes_before(a, c),
    decreases a.len(),
{
    if a.len() > 0 && a[0] == b[0] && b[0] == c[0] {
        lemma_before_transitive(a.drop_first(), b.drop_first(), c.drop_first());
    }
}

/// Of two different sequences, one sorts before the other.
pub proof fn lemma_before_total(a: Seq<u8>, b: Seq<u8>)
    requires
        a != b,
    ensures
        bytes_before(a, b) || bytes_before(b, a),
    decreases a.len(),
{
    if a.len() > 0 && b.len() > 0 && a[0] == b[0] {
        if a.drop_first() == b.drop_first() {
            assert(a =~= seq![a[0]] + a.drop_first());
            assert(b =~= seq![b[0]] + b.drop_first());
        }
        lemma_before_total(a.drop_first(), b.drop_first());
    } else if a.len() == 0 && b.len() == 0 {
        assert(a =~= b);
    }
}

/// Two texts are equal exactly when their UTF-8 bytes are.
pub proof fn lemma_bytes_determine_text(a: Seq<char>, b: Seq<char>)
    ensures
        (encode_utf8(a) == encode_utf8(b)) == (a == b),
{
    encode_utf8_decode_utf8(a);
    encode_utf8_decode_utf8(b);
}

/// How two byte strings compare.
pub enum TextOrder {
    Before,
    Same,
    After,
}

/// Compares two texts byte by byte, as `str`'s order does.
pub fn compare_text(a: &str, b: &str) -> (r: TextOrder)
    ensures
        r is Before <==> bytes_before(encode_utf8(a@), encode_utf8(b@)),
        r is Same <==> a@ == b@,
        r is After <==> bytes_before(encode_utf8(b@), encode_utf8(a@)),
{
    let x = a.as_bytes();
    let y = b.as_bytes();
    let ghost xa = x@;
    let ghost yb = y@;
    proof {
        lemma_bytes_determine_text(a@, b@);
    }
    let mut i: usize = 0;
    assert(xa.skip(0) =~= xa);
    assert(yb.skip(0) =~= yb);
    while i < x.len() && i < y.len() && x[i] == y[i]
        invariant
            xa == x@,
            yb == y@,
            i <= xa.len(),
            i <= yb.len(),
            xa.take(i as int) == yb.take(i as int),
            bytes_before(xa, yb) == bytes_before(xa.skip(i as int), yb.skip(i as int)),
            bytes_before(yb, xa) == bytes_before(yb.skip(i as int), xa.skip(i as int)),
        decreases xa.len() - i,
    {
        assert(xa.skip(i as int).drop_first() =~= xa.skip(i + 1));
        assert(yb.skip(i as int).drop_first() =~= yb.skip(i + 1));
        assert(xa.take(i + 1) =~= xa.take(i as int).push(xa[i as int]));
        assert(yb.take(i + 1) =~= yb.take(i as int).push(yb[i as int]));
        i = i + 1;
    }
    if i == x.len() && i == y.len() {
        assert(xa =~= xa.take(i as int));
        assert(yb =~= yb.take(i as int));
        proof {
            lemma_before_irreflexive(xa);
        }
        TextOrder::Same
    } else {
        assert(xa != yb) by {
            if i < xa.len() && i < yb.len() {
                assert(xa[i as int] != yb[i as int]);
            } else {
                assert(xa.len() != yb.len());
            }
        }
        if i == x.len() || (i < y.len() && x[i] < y[i]) {
            TextOrder::Before
        } else {
            TextOrder::After
        }
    }
}

/// Whether two texts are equal.
pub fn same_text(a: &str, b: &str) -> (r: bool)
    ensures
        r == (a@ == b@),
{
    match compare_text(a, b) {
        TextOrder::Same => true,
        _ => false,
    }
}

/// What is kept of one remote host.
#[derive(Clone, Debug)]
pub struct SavedConnection {
    pub name: String,
    pub host: String,
    pub port: u16,
    pub username: String,
    /// `"password"` or `"publickey"`.
    pub auth_type: String,
    pub private_key_path: Option<String>,
    pub public_key_path: Option<String>,
    /// The encrypted password, for password authentication.
    pub encrypted_password: Option<String>,
    /// The encrypted passphrase of the private key, for public-key authentication.
    pub encrypted_passphrase: Option<String>,
}

/// The UTF-8 bytes of a connection's name: the key the store is ordered by.
pub open spec fn name_key(c: SavedConnection) -> Seq<u8> {
    encode_utf8(c.name@)
}

/// The connection authenticates by password.
pub open spec fn uses_password(c: SavedConnection) -> bool {
    c.auth_type@ == "password"@
}

/// The connection authenticates by public key.
pub open spec fn uses_publickey(c: SavedConnection) -> bool {
    c.auth_type@ == "publickey"@
}

/// The two kinds of authentication have different names.
proof fn lemma_auth_kinds_differ()
    ensures
        "password"@ != "publickey"@,
{
    reveal_strlit("password");
    reveal_strlit("publickey");
    assert("password"@.len() != "publickey"@.len());
}

impl SavedConnection {
    /// A connection by password, with no password saved.
    pub fn new_password(name: String, host: String, port: u16, username: String) -> (r:
        SavedConnection)
        ensures
            r.name == name,
            r.host == host,
            r.port == port,
            r.username == username,
            uses_password(r),
            r.private_key_path is None,
            r.public_key_path is None,
            r.encrypted_password is None,
            r.encrypted_passphrase is None,
    {
        SavedConnection {
            name,
            host,
            port,
            username,
            auth_type: "password".to_string(),
            private_key_path: None,
            public_key_path: None,
            encrypted_password: None,
            encrypted_passphrase: None,
        }
    }

    /// A connection by password, with its password saved encrypted.
    pub fn new_password_with_encrypted(
        name: String,
        host: String,
        port: u16,
        username: String,
        encrypted_password: String,
    ) -> (r: SavedConnection)
        ensures
            r.name == name,
            r.host == host,
            r.port == port,
            r.username == username,
            uses_password(r),
            r.private_key_path is None,
            r.public_key_path is None,
            r.encrypted_password == Some(encrypted_password),
            r.encrypted_passphrase is None,
    {
        SavedConnection {
            name,
            host,
            port,
            username,
            auth_type: "password".to_string(),
            private_key_path: None,
            public_key_path: None,
            encrypted_password: Some(encrypted_password),
            encrypted_passphrase: None,
        }
    }

    /// A connection by public key, with no passphrase saved.
    pub fn new_publickey(
        name: String,
        host: String,
        port: u16,
        username: String,
        private_key_path: String,
        public_key_path: Option<String>,
    ) -> (r: SavedConnection)
        ensures
            r.name == name,
            r.host == host,
            r.port == port,
            r.username == username,
            uses_publickey(r),
            r.private_key_path == Some(private_key_path),
            r.public_key_path == public_key_path,
            r.encrypted_password is None,
            r.encrypted_passphrase is None,
    {
        SavedConnection {
            name,
            host,
            port,
            username,
            auth_type: "publickey".to_string(),
            private_key_path: Some(private_key_path),
            public_key_path,
            encrypted_password: None,
            encrypted_passphrase: None,
        }
    }

    /// A connection by public key, with the key's passphrase saved encrypted.
    pub fn new_publickey_with_encrypted(
        name: String,
        host: String,
        port: u16,
        username: String,
        private_key_path: String,
        public_key_path: Option<String>,
        encrypted_passphrase: String,
    ) -> (r: SavedConnection)
        ensures
            r.name == name,
            r.host == host,
            r.port == port,
            r.username == username,
            uses_publickey(r),
            r.private_key_path == Some(private_key_path),
            r.public_key_path == public_key_path,
            r.encrypted_password is None,
            r.encrypted_passphrase == Some(encrypted_passphrase),
    {
        SavedConnection {
            name,
            host,
            port,
            username,
            auth_type: "publickey".to_string(),
            private_key_path: Some(private_key_path),
            public_key_path,
            encrypted_password: None,
            encrypted_passphrase: Some(encrypted_passphrase),
        }
    }

    /// The settings to connect with, given the secrets the user typed: a
    /// password for `"password"` (required), a key passphrase for
    /// `"publickey"` (optional; the private key path must be saved).
    pub fn to_ssh_config(&self, password: Option<String>, passphrase: Option<String>) -> (r:
        Result<SshConfig, ConfigError>)
        ensures
            uses_password(*self) ==> match password {
                Some(p) => r == Ok::<SshConfig, ConfigError>(
                    config_with(*self, AuthMethod::Password(p)),
                ),
                None => r matches Err(ConfigError::MissingPassword),
            },
            uses_publickey(*self) ==> match self.private_key_path {
                Some(k) => r == Ok::<SshConfig, ConfigError>(
                    config_with(
                        *self,
                        AuthMethod::PublicKey {
                            public_key: self.public_key_path,
                            private_key: k,
                            passphrase,
                        },
                    ),
                ),
                None => r matches Err(ConfigError::MissingPrivateKey),
            },
            !uses_password(*self) && !uses_publickey(*self) ==> (r matches Err(
                ConfigError::UnknownAuthType(t),
            ) && t@ == self.auth_type@),
    {
        proof {
            lemma_auth_kinds_differ();
        }
        let auth = if same_text(self.auth_type.as_str(), "password") {
            match password {
                Some(p) => AuthMethod::Password(p),
                None => return Err(ConfigError::MissingPassword),
            }
        } else if same_text(self.auth_type.as_str(), "publickey") {
            match &self.private_key_path {
                Some(k) => AuthMethod::PublicKey {
                    public_key: copy_text(&self.public_key_path),
                    private_key: k.clone(),
                    passphrase,
                },
                None => return Err(ConfigError::MissingPrivateKey),
            }
        } else {
            return Err(ConfigError::UnknownAuthType(self.auth_type.clone()));
        };
        Ok(SshConfig { host: self.host.clone(), port: self.port, username: self.username.clone(), auth })
    }

    /// The settings to connect with, taking each secret from the override
    /// when one is given and otherwise decrypting the saved one with `crypto`.
    /// A password is required; a key passphrase is not.
    pub fn to_ssh_config_with_decryption(
        &self,
        crypto: &CryptoManager,
        password_override: Option<String>,
        passphrase_override: Option<String>,
    ) -> (r: Result<SshConfig, ConfigError>)
        ensures
            uses_password(*self) ==> match password_override {
                Some(p) => connects_with_password(r, *self, p@),
                None => match self.encrypted_password {
                    Some(e) => match decrypted(crypto.key(), e@) {
                        Ok(p) => connects_with_password(r, *self, p),
                        Err(x) => r matches Err(ConfigError::DecryptionFailed(y)) && y == x,
                    },
                    None => r matches Err(ConfigError::NoSavedPassword),
                },
            },
            uses_publickey(*self) ==> match self.private_key_path {
                None => r matches Err(ConfigError::MissingPrivateKey),
                Some(k) => match passphrase_override {
                    Some(pp) => connects_with_key(r, *self, k, Some(pp@)),
                    None => match self.encrypted_passphrase {
                        Some(e) => match decrypted(crypto.key(), e@) {
                            Ok(pp) => connects_with_key(r, *self, k, Some(pp)),
                            Err(x) => r matches Err(ConfigError::DecryptionFailed(y)) && y == x,
                        },
                        None => connects_with_key(r, *self, k, None),
                    },
                },
            },
            !uses_password(*self) && !uses_publickey(*self) ==> (r matches Err(
                ConfigError::UnknownAuthType(t),
            ) && t@ == self.auth_type@),
    {
        proof {
            lemma_auth_kinds_differ();
        }
        let auth = if same_text(self.auth_type.as_str(), "password") {
            let pwd = match password_override {
                Some(p) => p,
                None => match &self.encrypted_password {
                    Some(e) => match crypto.decrypt(e.as_str()) {
                        Ok(p) => p,
                        Err(x) => return Err(ConfigError::DecryptionFailed(x)),
                    },
                    None => return Err(ConfigError::NoSavedPassword),
                },
            };
            AuthMethod::Password(pwd)
        } else if same_text(self.auth_type.as_str(), "publickey") {
            let private_key = match &self.private_key_path {
                Some(k) => k.clone(),
                None => return Err(ConfigError::MissingPrivateKey),
            };
            let passphrase = match passphrase_override {
                Some(pp) => Some(pp),
                None => match &self.encrypted_passphrase {
                    Some(e) => match crypto.decrypt(e.as_str()) {
                        Ok(pp) => Some(pp),
                        Err(x) => return Err(ConfigError::DecryptionFailed(x)),
                    },
                    None => None,
                },
            };
            AuthMethod::PublicKey {
                public_key: copy_text(&self.public_key_path),
                private_key,
                passphrase,
            }
        } else {
            return Err(ConfigError::UnknownAuthType(self.auth_type.clone()));
        };
        Ok(SshConfig { host: self.host.clone(), port: self.port, username: self.username.clone(), auth })
    }

    /// Whether a secret is saved for the connection's kind of authentication:
    /// the password for `"password"`, the key's passphrase for `"publickey"`;
    /// never for any other kind.
    pub fn has_saved_password(&self) -> (r: bool)
        ensures
            r == if uses_password(*self) {
                self.encrypted_password is Some
            } else if uses_publickey(*self) {
                self.encrypted_passphrase is Some
            } else {
                false
            },
    {
        if same_text(self.auth_type.as_str(), "password") {
            self.encrypted_password.is_some()
        } else if same_text(self.auth_type.as_str(), "publickey") {
            self.encrypted_passphrase.is_some()
        } else {
            false
        }
    }
}

/// Connections in strictly increasing order of name: so no two share a name.
pub open spec fn sorted_by_name(s: Seq<SavedConnection>) -> bool {
    forall|i: int, j: int|
        0 <= i < j < s.len() ==> bytes_before(#[trigger] name_key(s[i]), #[trigger] name_key(s[j]))
}

/// Some connection of `s` has this name.
pub open spec fn has_name(s: Seq<SavedConnection>, name: Seq<char>) -> bool {
    exists|i: int| 0 <= i < s.len() && (#[trigger] s[i]).name@ == name
}

/// Why a request on saved connections was refused.
#[derive(Clone, Debug)]
pub enum ConfigError {
    /// No saved connection has this name.
    UnknownConnection(String),
    /// Password authentication, and no password was given.
    MissingPassword,
    /// Public-key authentication, and no private key path is saved.
    MissingPrivateKey,
    /// The authentication type is neither `"password"` nor `"publickey"`.
    UnknownAuthType(String),
    /// Password authentication, with no password given and none saved.
    NoSavedPassword,
    /// A saved secret could not be decrypted (a wrong master password, most often).
    DecryptionFailed(CryptoError),
}

/// How to authenticate to the remote host.
#[derive(Clone, Debug)]
pub enum AuthMethod {
    Password(String),
    PublicKey { public_key: Option<String>, private_key: String, passphrase: Option<String> },
}

/// Everything needed to connect to one remote host.
#[derive(Clone, Debug)]
pub struct SshConfig {
    pub host: String,
    pub port: u16,
    pub username: String,
    pub auth: AuthMethod,
}

/// The connection settings of `c` with the given authentication.
pub open spec fn config_with(c: SavedConnection, auth: AuthMethod) -> SshConfig {
    SshConfig { host: c.host, port: c.port, username: c.username, auth }
}

/// `r` connects to `c`'s host, port and user by password, with this password.
pub open spec fn connects_with_password(
    r: Result<SshConfig, ConfigError>,
    c: SavedConnection,
    password: Seq<char>,
) -> bool {
    &&& r matches Ok(cfg)
    &&& r->Ok_0.host == c.host
    &&& r->Ok_0.port == c.port
    &&& r->Ok_0.username == c.username
    &&& r->Ok_0.auth matches AuthMethod::Password(p)
    &&& r->Ok_0.auth->Password_0@ == password
}

/// `r` connects to `c`'s host, port and user by public key, with `c`'s public
/// key path, this private key path and this passphrase.
pub open spec fn connects_with_key(
    r: Result<SshConfig, ConfigError>,
    c: SavedConnection,
    private_key: String,
    passphrase: Option<Seq<char>>,
) -> bool {
    &&& r matches Ok(cfg)
    &&& r->Ok_0.host == c.host
    &&& r->Ok_0.port == c.port
    &&& r->Ok_0.username == c.username
    &&& r->Ok_0.auth matches AuthMethod::PublicKey { .. }
    &&& r->Ok_0.auth->PublicKey_public_key == c.public_key_path
    &&& r->Ok_0.auth->PublicKey_private_key == private_key
    &&& match r->Ok_0.auth->PublicKey_passphrase {
        Some(pp) => passphrase == Some(pp@),
        None => passphrase is None,
    }
}

fn copy_text(s: &Option<String>) -> (r: Option<String>)
    ensures
        r == *s,
{
    match s {
        Some(t) => Some(t.clone()),
        None => None,
    }
}

/// The saved connections and the name of the default one.
#[derive(Clone, Debug)]
pub struct AppConfig {
    /// Ordered by name, names unique.
    pub connections: Vec<SavedConnection>,
    pub default_connection: Option<String>,
}

impl Default for AppConfig {
    /// No connections and no default.
    fn default() -> (r: AppConfig)
        ensures
            r.connections@.len() == 0,
            r.default_connection is None,
    {
        AppConfig { connections: Vec::new(), default_connection: None }
    }
}

/// Connections whose names differ are in the store in the order of their names.
proof fn lemma_sorted_names_differ(s: Seq<SavedConnection>, i: int, j: int)
    requires
        sorted_by_name(s),
        0 <= i < s.len(),
        0 <= j < s.len(),
        i != j,
    ensures
        s[i].name@ != s[j].name@,
{
    lemma_bytes_determine_text(s[i].name@, s[j].name@);
    if i < j {
        assert(bytes_before(name_key(s[i]), name_key(s[j])));
    } else {
        assert(bytes_before(name_key(s[j]), name_key(s[i])));
    }
    lemma_before_irreflexive(name_key(s[i]));
}

impl AppConfig {
    /// The connections are ordered by name, with no name twice.
    pub open spec fn wf(&self) -> bool {
        sorted_by_name(self.connections@)
    }

    /// The index of the connection with this name, if there is one.
    fn find(&self, name: &str) -> (r: Option<usize>)
        requires
            self.wf(),
        ensures
            match r {
                Some(i) => i < self.connections@.len() && self.connections@[i as int].name@
                    == name@,
                None => !has_name(self.connections@, name@),
            },
    {
        let mut i: usize = 0;
        while i < self.connections.len()
            invariant
                i <= self.connections@.len(),
                forall|k: int| 0 <= k < i ==> (#[trigger] self.connections@[k]).name@ != name@,
            decreases self.connections@.len() - i,
        {
            if same_text(self.connections[i].name.as_str(), name) {
                return Some(i);
            }
            i = i + 1;
        }
        None
    }

    /// Saves a connection, in place of any with the same name. The first
    /// connection saved becomes the default.
    pub fn add_connection(&mut self, connection: SavedConnection)
        requires
            old(self).wf(),
        ensures
            final(self).wf(),
            exists|i: int|
                0 <= i < final(self).connections@.len() && #[trigger] final(self).connections@[i] == connection,
            forall|i: int|
                0 <= i < final(self).connections@.len() && (#[trigger] final(self).connections@[i]).name@ != connection.name@ ==> old(self).connections@.contains(
                    final(self).connections@[i],
                ),
            forall|i: int|
                0 <= i < old(self).connections@.len() && (#[trigger] old(self).connections@[i]).name@ != connection.name@ ==> final(self).connections@.contains(
                    old(self).connections@[i],
                ),
            final(self).connections@.len() == old(self).connections@.len() + if has_name(
                old(self).connections@,
                connection.name@,
            ) {
                0int
            } else {
                1int
            },
            final(self).default_connection == match old(self).default_connection {
                Some(d) => Some(d),
                None => Some(connection.name),
            },
    {
        let ghost s = self.connections@;
        let ghost key = name_key(connection);
        let mut p: usize = 0;
        let mut found = false;
        while p < self.connections.len()
            invariant_except_break
                !found,
            invariant
                self.connections@ == s,
                key == name_key(connection),
                sorted_by_name(s),
                p <= s.len(),
                forall|k: int| 0 <= k < p ==> bytes_before(#[trigger] name_key(s[k]), key),
            ensures
                p <= s.len(),
                found ==> p < s.len() && s[p as int].name@ == connection.name@,
                !found ==> p == s.len() || bytes_before(key, name_key(s[p as int])),
            decreases s.len() - p,
        {
            match compare_text(self.connections[p].name.as_str(), connection.name.as_str()) {
                TextOrder::Before => {
                    p = p + 1;
                },
                TextOrder::Same => {
                    found = true;
                    break;
                },
                TextOrder::After => {
                    break;
                },
            }
        }
        proof {
            lemma_bytes_determine_text(connection.name@, connection.name@);
        }
        let name = connection.name.clone();
        if found {
            proof {
                assert(s[p as int].name@ == connection.name@);
                assert forall|k: int| 0 <= k < s.len() && k != p implies s[k].name@
                    != connection.name@ by {
                    lemma_sorted_names_differ(s, k, p as int);
                }
            }
            self.connections.set(p, connection);
            proof {
                let t = self.connections@;
                assert(name_key(t[p as int]) == name_key(s[p as int]));
                assert forall|i: int, j: int| 0 <= i < j < t.len() implies bytes_before(
                    #[trigger] name_key(t[i]),
                    #[trigger] name_key(t[j]),
                ) by {
                    assert(name_key(t[i]) == name_key(s[i]));
                    assert(name_key(t[j]) == name_key(s[j]));
                }
                assert(t[p as int] == connection);
                assert forall|i: int|
                    0 <= i < t.len() && (#[trigger] t[i]).name@ != connection.name@ implies s.contains(
                    t[i],
                ) by {
                    assert(t[i] == s[i]);
                }
                assert forall|i: int|
                    0 <= i < s.len() && (#[trigger] s[i]).name@ != connection.name@ implies t.contains(
                    s[i],
                ) by {
                    assert(t[i] == s[i]);
                }
                assert(has_name(s, connection.name@));
            }
        } else {
            proof {
                if p < s.len() {
                    assert(bytes_before(key, name_key(s[p as int])));
                }
                assert forall|k: int| 0 <= k < s.len() implies (#[trigger] s[k]).name@
                    != connection.name@ by {
                    lemma_bytes_determine_text(s[k].name@, connection.name@);
                    if k < p {
                        assert(bytes_before(name_key(s[k]), key));
                        lemma_before_irreflexive(key);
                    } else {
                        if k > p {
                            assert(bytes_before(name_key(s[p as int]), name_key(s[k])));
                            lemma_before_transitive(key, name_key(s[p as int]), name_key(s[k]));
                        }
                        lemma_before_irreflexive(key);
                    }
                }
            }
            self.connections.insert(p, connection);
            proof {
                let t = self.connections@;
                assert(t == s.insert(p as int, connection));
                assert forall|i: int, j: int| 0 <= i < j < t.len() implies bytes_before(
                    #[trigger] name_key(t[i]),
                    #[trigger] name_key(t[j]),
                ) by {
                    if j < p {
                        assert(t[i] == s[i] && t[j] == s[j]);
                    } else if j == p {
                        assert(t[i] == s[i]);
                    } else if i < p {
                        assert(t[i] == s[i] && t[j] == s[j - 1]);
                        assert(bytes_before(name_key(s[i]), key));
                        assert(bytes_before(key, name_key(s[p as int])));
                        lemma_before_transitive(name_key(s[i]), key, name_key(s[p as int]));
                        if j - 1 > p {
                            lemma_before_transitive(
                                name_key(s[i]),
                                name_key(s[p as int]),
                                name_key(s[j - 1]),
                            );
                        }
                    } else if i == p {
                        assert(t[j] == s[j - 1]);
                        if j - 1 > p {
                            lemma_before_transitive(key, name_key(s[p as int]), name_key(s[j - 1]));
                        }
                    } else {
                        assert(t[i] == s[i - 1] && t[j] == s[j - 1]);
                    }
                }
                assert(t[p as int] == connection);
                assert forall|i: int|
                    0 <= i < t.len() && (#[trigger] t[i]).name@ != connection.name@ implies s.contains(
                    t[i],
                ) by {
                    if i < p {
                        assert(t[i] == s[i]);
                    } else if i > p {
                        assert(t[i] == s[i - 1]);
                    }
                }
                assert forall|i: int|
                    0 <= i < s.len() && (#[trigger] s[i]).name@ != connection.name@ implies t.contains(
                    s[i],
                ) by {
                    if i < p {
                        assert(t[i] == s[i]);
                    } else {
                        assert(t[i + 1] == s[i]);
                    }
                }
            }
        }
        if self.default_connection.is_none() {
            self.default_connection = Some(name);
        }
    }

    /// Deletes the connection with this name; the default is cleared when it
    /// named that connection. Fails, changing nothing, where no connection has
    /// the name.
    pub fn remove_connection(&mut self, name: &str) -> (r: Result<(), ConfigError>)
        requires
            old(self).wf(),
        ensures
            final(self).wf(),
            r is Ok <==> has_name(old(self).connections@, name@),
            r is Err ==> *final(self) == *old(self),
            r matches Err(ConfigError::UnknownConnection(n)) ==> n@ == name@,
            r is Ok ==> exists|i: int|
                0 <= i < old(self).connections@.len() && (#[trigger] old(
                    self).connections@[i]).name@ == name@ && final(self).connections@ == old(
                    self).connections@.remove(i),
            r is Ok ==> final(self).default_connection == match old(self).default_connection {
                Some(d) => if d@ == name@ {
                    None
                } else {
                    Some(d)
                },
                None => None,
            },
    {
        match self.find(name) {
            None => Err(ConfigError::UnknownConnection(name.to_string())),
            Some(i) => {
                let ghost s = self.connections@;
                self.connections.remove(i);
                proof {
                    let t = self.connections@;
                    assert forall|a: int, b: int| 0 <= a < b < t.len() implies bytes_before(
                        #[trigger] name_key(t[a]),
                        #[trigger] name_key(t[b]),
                    ) by {
                        let a0 = if a < i { a } else { a + 1 };
                        let b0 = if b < i { b } else { b + 1 };
                        assert(t[a] == s[a0] && t[b] == s[b0]);
                    }
                }
                let clear = match &self.default_connection {
                    Some(d) => same_text(d.as_str(), name),
                    None => false,
                };
                if clear {
                    self.default_connection = None;
                }
                Ok(())
            },
        }
    }

    /// The connection with this name, if one is saved.
    pub fn get_connection(&self, name: &str) -> (r: Option<&SavedConnection>)
        requires
            self.wf(),
        ensures
            r is None <==> !has_name(self.connections@, name@),
            r matches Some(c) ==> self.connections@.contains(*c) && c.name@ == name@,
    {
        match self.find(name) {
            Some(i) => Some(&self.connections[i]),
            None => None,
        }
    }

    /// Every saved connection, in order of name.
    pub fn list_connections(&self) -> (r: Vec<&SavedConnection>)
        requires
            self.wf(),
        ensures
            r@.len() == self.connections@.len(),
            forall|i: int| 0 <= i < r@.len() ==> *(#[trigger] r@[i]) == self.connections@[i],
            sorted_by_name(self.connections@),
    {
        let mut out: Vec<&SavedConnection> = Vec::new();
        let mut i: usize = 0;
        while i < self.connections.len()
            invariant
                i <= self.connections@.len(),
                out@.len() == i,
                forall|k: int| 0 <= k < i ==> *(#[trigger] out@[k]) == self.connections@[k],
            decreases self.connections@.len() - i,
        {
            out.push(&self.connections[i]);
            i = i + 1;
        }
        out
    }

    /// Makes the connection with this name the default. Fails, changing
    /// nothing, where no connection has the name.
    pub fn set_default(&mut self, name: &str) -> (r: Result<(), ConfigError>)
        requires
            old(self).wf(),
        ensures
            final(self).wf(),
            final(self).connections == old(self).connections,
            r is Ok <==> has_name(old(self).connections@, name@),
            r is Err ==> final(self).default_connection == old(self).default_connection,
            r matches Err(ConfigError::UnknownConnection(n)) ==> n@ == name@,
            r is Ok ==> (final(self).default_connection matches Some(d) && d@ == name@),
    {
        match self.find(name) {
            None => Err(ConfigError::UnknownConnection(name.to_string())),
            Some(_) => {
                self.default_connection = Some(name.to_string());
                Ok(())
            },
        }
    }

    /// The default connection, if one is named and saved.
    pub fn get_default_connection(&self) -> (r: Option<&SavedConnection>)
        requires
            self.wf(),
        ensures
            match self.default_connection {
                Some(d) => {
                    &&& r is None <==> !has_name(self.connections@, d@)
                    &&& (r matches Some(c) ==> self.connections@.contains(*c) && c.name@ == d@)
                },
                None => r is None,
            },
    {
        match &self.default_connection {
            Some(d) => self.get_connection(d.as_str()),
            None => None,
        }
    }
}

} // verus!
