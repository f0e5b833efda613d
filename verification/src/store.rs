//! The config store: binds a record type shape to a directory and a file
//! name, and serializes record instances for that location.
//!
//! Resolving the platform configuration directory is the one outside call;
//! everything the store computes from it — the file path, the encoded
//! buffer, the decoded record — is verified. The filesystem calls that a
//! save or a load performs live outside the library, which hands them the
//! buffer and takes the read bytes back; their effect is modeled here as a
//! map from paths to bytes.

use vstd::prelude::*;

use crate::codec::dec_record;
use crate::codec::decode_record;
use crate::codec::enc_fields;
use crate::codec::encode_record;
use crate::codec::lemma_round_trip;
use crate::record::fields_match;
use crate::record::fields_model;
use crate::record::no_nul_vals;
use crate::record::record_matches;
use crate::record::FieldDescriptor;
use crate::record::FieldModel;
use crate::record::ValModel;
use crate::record::Value;
use crate::ConfigError;

verus! {

/// Relies on directories' `ProjectDirs`: `from("com", organization,
/// application)` resolves the platform configuration directory for that
/// pair, or nothing when no home directory is known, and `config_dir` is
/// that directory's path.
#[verifier::external_body]
fn resolve_config_dir(organization: &str, application: &str) -> (r: Option<String>) {
    directories::ProjectDirs::from("com", organization, application).map(
        |d| d.config_dir().to_string_lossy().into_owned(),
    )
}

/// The resolved platform configuration directory of an organization and
/// application pair.
pub struct ConfigPath {
    pub inner: String,
}

impl ConfigPath {
    /// Resolves the configuration directory for the pair; nothing comes back
    /// when the platform knows no home for it.
    pub fn new(organization: &str, application: &str) -> (r: Option<ConfigPath>) {
        match resolve_config_dir(organization, application) {
            Some(p) => Some(ConfigPath { inner: p }),
            None => None,
        }
    }
}

/// The store binding: a directory, a file name, and the record type shape
/// whose instances the file holds. It owns no data; it only names where the
/// data lives.
pub struct ConfigFactory {
    pub path: String,
    pub username: String,
    pub application_name: String,
    pub config_name: String,
    pub shape: Vec<FieldDescriptor>,
}

impl ConfigFactory {
    /// The model of the bound record type shape.
    pub open spec fn shape_model(self) -> Seq<FieldModel> {
        fields_model(self.shape@)
    }

    /// The path of the bound file: the directory, a separator, the file
    /// name.
    pub open spec fn file_model(self) -> Seq<char> {
        self.path@ + seq!['/'] + self.config_name@
    }

    /// Builds the store binding for one record type: resolves the platform
    /// configuration directory of the organization and application, and
    /// binds the file name and the shape to it. No filesystem work happens
    /// here; nothing comes back when no configuration directory resolves.
    pub fn init_config(
        username: &str,
        application_name: &str,
        config_name: &str,
        shape: Vec<FieldDescriptor>,
    ) -> (r: Option<ConfigFactory>)
        ensures
            match r {
                Some(f) => {
                    &&& f.username@ == username@
                    &&& f.application_name@ == application_name@
                    &&& f.config_name@ == config_name@
                    &&& f.shape == shape
                },
                None => true,
            },
    {
        match ConfigPath::new(username, application_name) {
            Some(cp) => Some(
                ConfigFactory {
                    path: cp.inner,
                    username: username.to_owned(),
                    application_name: application_name.to_owned(),
                    config_name: config_name.to_owned(),
                    shape,
                },
            ),
            None => None,
        }
    }

    /// The full path of the bound file.
    pub fn config_file_path(&self) -> (r: String)
        ensures
            r@ == self.file_model(),
    {
        let mut r = self.path.clone();
        r.append("/");
        r.append(self.config_name.as_str());
        proof {
            reveal_strlit("/");
            assert(r@ =~= self.file_model());
        }
        r
    }

    /// Whether a record instance fits the bound shape: what a save demands.
    pub fn fits(&self, vals: &Vec<Value>) -> (r: bool)
        ensures
            r == fields_match(self.shape_model(), crate::record::vals_model(vals@)),
    {
        record_matches(&self.shape, vals)
    }

    /// Serializes one record instance into the buffer a save writes to the
    /// bound file: every field in declaration order, nothing else.
    pub fn to_bytes(&self, vals: &Vec<Value>) -> (out: Vec<u8>)
        requires
            fields_match(self.shape_model(), crate::record::vals_model(vals@)),
        ensures
            out@ == enc_fields(self.shape_model(), crate::record::vals_model(vals@)),
    {
        encode_record(&self.shape, vals)
    }

    /// Deserializes the bytes a load read from the bound file.
    pub fn from_bytes(&self, bytes: &Vec<u8>) -> (r: Result<Vec<Value>, ConfigError>)
        ensures
            match r {
                Ok(vs) => {
                    &&& dec_record(self.shape_model(), bytes@) == Some(
                        crate::record::vals_model(vs@),
                    )
                    &&& fields_match(self.shape_model(), crate::record::vals_model(vs@))
                },
                Err(e) => {
                    &&& e == ConfigError::TruncatedInput
                    &&& dec_record(self.shape_model(), bytes@) is None
                },
            },
    {
        decode_record(&self.shape, bytes)
    }
}

/// An abstract view of the slice of the filesystem a store touches: which
/// directories exist, and the bytes of each file.
#[verifier::ext_equal]
pub struct DiskModel {
    pub dirs: Set<Seq<char>>,
    pub files: Map<Seq<char>, Seq<u8>>,
}

/// What a successful save leaves behind: the store's directory exists, and
/// the bound file holds exactly the encoded record.
pub open spec fn save_effect(d: DiskModel, f: ConfigFactory, vs: Seq<ValModel>) -> DiskModel {
    DiskModel {
        dirs: d.dirs.insert(f.path@),
        files: d.files.insert(f.file_model(), enc_fields(f.shape_model(), vs)),
    }
}

/// What a load yields: the decoded contents of the bound file, when the file
/// exists and its bytes decode against the bound shape.
pub open spec fn load_result(d: DiskModel, f: ConfigFactory) -> Option<Seq<ValModel>> {
    if d.files.contains_key(f.file_model()) {
        dec_record(f.shape_model(), d.files[f.file_model()])
    } else {
        None
    }
}

/// STORE IDEMPOTENCE: saving the same record twice leaves the disk exactly
/// as one save does, and a load afterwards yields a record equal to the one
/// saved, as long as no text field of it holds a zero character.
pub proof fn lemma_save_idempotent(d: DiskModel, f: ConfigFactory, vs: Seq<ValModel>)
    requires
        fields_match(f.shape_model(), vs),
        no_nul_vals(vs),
    ensures
        save_effect(save_effect(d, f, vs), f, vs) == save_effect(d, f, vs),
        load_result(save_effect(save_effect(d, f, vs), f, vs), f) == Some(vs),
{
    lemma_round_trip(f.shape_model(), vs);
    assert(save_effect(save_effect(d, f, vs), f, vs) =~~= save_effect(d, f, vs));
}

/// DIRECTORY AUTO-CREATION: a save against a store whose directory does not
/// yet exist leaves the directory in place, and a load from the same store
/// then succeeds with the saved record.
pub proof fn lemma_save_creates_dir(d: DiskModel, f: ConfigFactory, vs: Seq<ValModel>)
    requires
        !d.dirs.contains(f.path@),
        fields_match(f.shape_model(), vs),
        no_nul_vals(vs),
    ensures
        save_effect(d, f, vs).dirs.contains(f.path@),
        load_result(save_effect(d, f, vs), f) == Some(vs),
{
    lemma_round_trip(f.shape_model(), vs);
}

} // verus!
