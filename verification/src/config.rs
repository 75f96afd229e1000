//! The configuration schema the controller consumes from the front end,
//! and the snapshot a listener is built from.

use vstd::prelude::*;

verus! {

use crate::dict::{dict_def_equals, DictDef, DictDefView, DictFormat, DictPath};
use crate::encoding::Encoding;

/// What the front end configures: the remote fallback switch, the wire
/// encoding, the port, and the ordered dictionary source list.
pub struct Config {
    pub enable_google_cgi: bool,
    pub server_encoding: Encoding,
    pub port: u16,
    pub dicts: Vec<DictDef>,
}

/// The mathematical shape of a [`Config`].
pub struct ConfigView {
    pub enable_google_cgi: bool,
    pub server_encoding: Encoding,
    pub port: u16,
    pub dicts: Seq<DictDefView>,
}

impl View for Config {
    type V = ConfigView;

    open spec fn view(&self) -> ConfigView {
        ConfigView {
            enable_google_cgi: self.enable_google_cgi,
            server_encoding: self.server_encoding,
            port: self.port,
            dicts: self.dicts.deep_view(),
        }
    }
}

impl Default for Config {
    /// The configuration a fresh installation runs with: no remote
    /// fallback, UTF-8, port 1178, no dictionaries.
    fn default() -> (r: Config)
        ensures
            r.enable_google_cgi == false,
            r.server_encoding == Encoding::Utf8,
            r.port == 1178,
            r.dicts@.len() == 0,
    {
        Config {
            enable_google_cgi: false,
            server_encoding: Encoding::Utf8,
            port: 1178,
            dicts: Vec::new(),
        }
    }
}

/// Copy a dictionary source list, preserving its contents.
pub fn clone_dicts(dicts: &Vec<DictDef>) -> (r: Vec<DictDef>)
    ensures
        r.deep_view() == dicts.deep_view(),
{
    let mut r: Vec<DictDef> = Vec::new();
    let n = dicts.len();
    let mut i: usize = 0;
    while i < n
        invariant
            n == dicts@.len(),
            0 <= i <= n,
            r.deep_view() =~~= dicts.deep_view().take(i as int),
        decreases n - i,
    {
        let d = &dicts[i];
        let copy = DictDef {
            path_or_url: match &d.path_or_url {
                DictPath::File { path } => DictPath::File { path: path.clone() },
                DictPath::Url { url } => DictPath::Url { url: url.clone() },
            },
            encoding: d.encoding,
            format: d.format,
        };
        let ghost old_r = r.deep_view();
        proof {
            assert(copy@ == dicts.deep_view()[i as int]);
        }
        r.push(copy);
        proof {
            assert(r.deep_view() =~~= old_r.push(dicts.deep_view()[i as int]));
            assert(dicts.deep_view().take(i + 1 as int) =~~= dicts.deep_view().take(i as int).push(
                dicts.deep_view()[i as int],
            ));
        }
        i += 1;
    }
    proof {
        assert(dicts.deep_view().take(n as int) =~~= dicts.deep_view());
    }
    r
}

/// Copy a configuration, preserving its contents.
pub fn clone_config(config: &Config) -> (r: Config)
    ensures
        r@ == config@,
{
    let r = Config {
        enable_google_cgi: config.enable_google_cgi,
        server_encoding: config.server_encoding,
        port: config.port,
        dicts: clone_dicts(&config.dicts),
    };
    r
}

/// Decide whether two configurations are the same.
pub fn config_equals(a: &Config, b: &Config) -> (r: bool)
    ensures
        r == (a@ == b@),
{
    if a.enable_google_cgi != b.enable_google_cgi {
        return false;
    }
    if !matches!(
        (a.server_encoding, b.server_encoding),
        (Encoding::Utf8, Encoding::Utf8) | (Encoding::Eucjp, Encoding::Eucjp)
    ) {
        return false;
    }
    if a.port != b.port {
        return false;
    }
    proof {
        assert(a.dicts.deep_view().len() == a.dicts@.len());
        assert(b.dicts.deep_view().len() == b.dicts@.len());
    }
    if a.dicts.len() != b.dicts.len() {
        return false;
    }
    let n = a.dicts.len();
    let mut i: usize = 0;
    while i < n
        invariant
            n == a.dicts@.len(),
            n == b.dicts@.len(),
            0 <= i <= n,
            forall|j: int|
                0 <= j < i ==> a.dicts.deep_view()[j] == #[trigger] b.dicts.deep_view()[j],
        decreases n - i,
    {
        if !dict_def_equals(&a.dicts[i], &b.dicts[i]) {
            proof {
                assert(a.dicts.deep_view()[i as int] != b.dicts.deep_view()[i as int]);
            }
            return false;
        }
        i += 1;
    }
    proof {
        assert(a.dicts.deep_view() =~~= b.dicts.deep_view());
    }
    true
}

/// The snapshot a listener is bound from: wire encoding, address octets
/// and port.  The address is the loopback interface unless the front end
/// says otherwise.
pub struct ServerConfig {
    pub encoding: Encoding,
    pub address: [u8; 4],
    pub port: u16,
}

/// The listener snapshot a configuration asks for: its encoding and port
/// on the loopback address.
pub fn server_config_of(config: &Config) -> (r: ServerConfig)
    ensures
        r.encoding == config.server_encoding,
        r.port == config.port,
        r.address@ == seq![127u8, 0u8, 0u8, 1u8],
{
    let address = [127u8, 0u8, 0u8, 1u8];
    proof {
        assert(address@ =~= seq![127u8, 0u8, 0u8, 1u8]);
    }
    ServerConfig { encoding: config.server_encoding, address, port: config.port }
}

/// What the controller owns: whether the server should run, and under
/// which configuration.
pub struct DesiredState {
    pub running: bool,
    pub config: Config,
}

} // verus!
