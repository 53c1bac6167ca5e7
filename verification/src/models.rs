//! The rows of the entity store: programs, links, maps and the association
//! of programs with maps.

use vstd::prelude::*;
use vstd::string::StringExecFns;

verus! {

/// A point in time: whole seconds since the Unix epoch, UTC, and the
/// nanoseconds into that second.
#[derive(Debug, Clone, Copy, PartialEq, Eq, Structural)]
pub struct Timestamp {
    pub secs: i64,
    pub nanos: u32,
}

impl Timestamp {
    /// The Unix epoch.
    pub open spec fn spec_epoch() -> Timestamp {
        Timestamp { secs: 0, nanos: 0 }
    }

    /// The Unix epoch, which rows carry until they are first written.
    pub fn epoch() -> (t: Timestamp)
        ensures
            t == Timestamp::spec_epoch(),
    {
        Timestamp { secs: 0, nanos: 0 }
    }
}

impl Default for Timestamp {
    fn default() -> (t: Timestamp)
        ensures
            t == Timestamp::spec_epoch(),
    {
        Timestamp::epoch()
    }
}

/// The view of an optional text.
pub open spec fn text_opt(o: Option<String>) -> Option<Seq<char>> {
    match o {
        Some(s) => Some(s@),
        None => None,
    }
}

/// Copies an optional text.
pub fn clone_text_opt(o: &Option<String>) -> (r: Option<String>)
    ensures
        text_opt(r) == text_opt(*o),
{
    match o {
        Some(s) => Some(s.clone()),
        None => None,
    }
}

/// Whether `s` holds exactly the text `lit`.
pub fn text_is(s: &String, lit: &str) -> (r: bool)
    ensures
        r == (s@ == lit@),
{
    let other = String::from_str(lit);
    *s == other
}

/// A kernel-loadable program and what is known about it.
#[derive(Debug, PartialEq, Eq)]
pub struct BpfProgram {
    /// Kernel identifier of the program, once the kernel has assigned one.
    pub id: u64,
    /// Program name.
    pub name: String,
    /// Optional description.
    pub description: Option<String>,
    /// Program kind, lower case: one of `xdp`, `tc`, `tcx`, `tracepoint`,
    /// `kprobe`, `uprobe`, `fentry`, `fexit`.
    pub kind: String,
    /// Lifecycle state: `pre_load`, `loaded` or `attached`.
    pub state: String,
    /// Where the program comes from: `file` or `image`.
    pub location_type: String,
    /// Path of the object file; present when the location is a file.
    pub file_path: Option<String>,
    /// Image reference; present when the location is an image.
    pub image_url: Option<String>,
    /// Pull policy for an image location.
    pub image_pull_policy: Option<String>,
    /// User name for an image registry.
    pub username: Option<String>,
    /// Password for an image registry.
    pub password: Option<String>,
    /// Where the program's maps are pinned.
    pub map_pin_path: String,
    /// Program that owns the maps, if they are shared.
    pub map_owner_id: Option<i32>,
    /// The program binary.
    pub program_bytes: Vec<u8>,
    /// Free-form metadata, a JSON object as text.
    pub metadata: String,
    /// Global data, a JSON object as text.
    pub global_data: String,
    /// For `kprobe` and `uprobe` programs: whether this is a return probe.
    pub retprobe: Option<bool>,
    /// For `fentry` and `fexit` programs: the function attached to.
    pub fn_name: Option<String>,
    /// Name the kernel reports.
    pub kernel_name: Option<String>,
    /// Program type the kernel reports.
    pub kernel_program_type: Option<i32>,
    /// When the kernel loaded the program, as ISO 8601 text.
    pub kernel_loaded_at: Option<String>,
    /// Tag the kernel reports.
    pub kernel_tag: Option<String>,
    /// Whether the kernel considers the program GPL compatible.
    pub kernel_gpl_compatible: Option<bool>,
    /// BTF identifier the kernel reports.
    pub kernel_btf_id: Option<i32>,
    /// Size in bytes of the translated program.
    pub kernel_bytes_xlated: Option<i32>,
    /// Whether the program was JIT compiled.
    pub kernel_jited: Option<bool>,
    /// Size in bytes of the JIT compiled program.
    pub kernel_bytes_jited: Option<i32>,
    /// Number of instructions the kernel verified.
    pub kernel_verified_insns: Option<i32>,
    /// Identifiers of the maps the kernel reports, a JSON array as text.
    pub kernel_map_ids: String,
    /// Memory in bytes the kernel locked for the program.
    pub kernel_bytes_memlock: Option<i32>,
    /// When the row was created.
    pub created_at: Timestamp,
    /// When the row was last written.
    pub updated_at: Timestamp,
}

/// The mathematical content of a program row.
pub struct BpfProgramView {
    pub id: u64,
    pub name: Seq<char>,
    pub description: Option<Seq<char>>,
    pub kind: Seq<char>,
    pub state: Seq<char>,
    pub location_type: Seq<char>,
    pub file_path: Option<Seq<char>>,
    pub image_url: Option<Seq<char>>,
    pub image_pull_policy: Option<Seq<char>>,
    pub username: Option<Seq<char>>,
    pub password: Option<Seq<char>>,
    pub map_pin_path: Seq<char>,
    pub map_owner_id: Option<i32>,
    pub program_bytes: Seq<u8>,
    pub metadata: Seq<char>,
    pub global_data: Seq<char>,
    pub retprobe: Option<bool>,
    pub fn_name: Option<Seq<char>>,
    pub kernel_name: Option<Seq<char>>,
    pub kernel_program_type: Option<i32>,
    pub kernel_loaded_at: Option<Seq<char>>,
    pub kernel_tag: Option<Seq<char>>,
    pub kernel_gpl_compatible: Option<bool>,
    pub kernel_btf_id: Option<i32>,
    pub kernel_bytes_xlated: Option<i32>,
    pub kernel_jited: Option<bool>,
    pub kernel_bytes_jited: Option<i32>,
    pub kernel_verified_insns: Option<i32>,
    pub kernel_map_ids: Seq<char>,
    pub kernel_bytes_memlock: Option<i32>,
    pub created_at: Timestamp,
    pub updated_at: Timestamp,
}

impl View for BpfProgram {
    type V = BpfProgramView;

    open spec fn view(&self) -> BpfProgramView {
        BpfProgramView {
            id: self.id,
            name: self.name@,
            description: text_opt(self.description),
            kind: self.kind@,
            state: self.state@,
            location_type: self.location_type@,
            file_path: text_opt(self.file_path),
            image_url: text_opt(self.image_url),
            image_pull_policy: text_opt(self.image_pull_policy),
            username: text_opt(self.username),
            password: text_opt(self.password),
            map_pin_path: self.map_pin_path@,
            map_owner_id: self.map_owner_id,
            program_bytes: self.program_bytes@,
            metadata: self.metadata@,
            global_data: self.global_data@,
            retprobe: self.retprobe,
            fn_name: text_opt(self.fn_name),
            kernel_name: text_opt(self.kernel_name),
            kernel_program_type: self.kernel_program_type,
            kernel_loaded_at: text_opt(self.kernel_loaded_at),
            kernel_tag: text_opt(self.kernel_tag),
            kernel_gpl_compatible: self.kernel_gpl_compatible,
            kernel_btf_id: self.kernel_btf_id,
            kernel_bytes_xlated: self.kernel_bytes_xlated,
            kernel_jited: self.kernel_jited,
            kernel_bytes_jited: self.kernel_bytes_jited,
            kernel_verified_insns: self.kernel_verified_insns,
            kernel_map_ids: self.kernel_map_ids@,
            kernel_bytes_memlock: self.kernel_bytes_memlock,
            created_at: self.created_at,
            updated_at: self.updated_at,
        }
    }
}

impl BpfProgramView {
    /// A row that has not been filled in: empty texts, empty JSON documents,
    /// no optional values, identifier zero and both timestamps at the epoch.
    pub open spec fn blank() -> BpfProgramView {
        BpfProgramView {
            id: 0,
            name: Seq::empty(),
            description: None,
            kind: Seq::empty(),
            state: Seq::empty(),
            location_type: Seq::empty(),
            file_path: None,
            image_url: None,
            image_pull_policy: None,
            username: None,
            password: None,
            map_pin_path: Seq::empty(),
            map_owner_id: None,
            program_bytes: Seq::empty(),
            metadata: "{}"@,
            global_data: "{}"@,
            retprobe: None,
            fn_name: None,
            kernel_name: None,
            kernel_program_type: None,
            kernel_loaded_at: None,
            kernel_tag: None,
            kernel_gpl_compatible: None,
            kernel_btf_id: None,
            kernel_bytes_xlated: None,
            kernel_jited: None,
            kernel_bytes_jited: None,
            kernel_verified_insns: None,
            kernel_map_ids: "[]"@,
            kernel_bytes_memlock: None,
            created_at: Timestamp::spec_epoch(),
            updated_at: Timestamp::spec_epoch(),
        }
    }

    /// The same row with both timestamps set to `now`.
    pub open spec fn stamped_created(self, now: Timestamp) -> BpfProgramView {
        BpfProgramView { created_at: now, updated_at: now, ..self }
    }

    /// The same row with the update timestamp set to `now`.
    pub open spec fn stamped_updated(self, now: Timestamp) -> BpfProgramView {
        BpfProgramView { updated_at: now, ..self }
    }
}

impl Clone for BpfProgram {
    fn clone(&self) -> (r: BpfProgram)
        ensures
            r@ == self@,
    {
        let program_bytes = self.program_bytes.clone();
        assert(program_bytes@ =~= self.program_bytes@);
        BpfProgram {
            id: self.id,
            name: self.name.clone(),
            description: clone_text_opt(&self.description),
            kind: self.kind.clone(),
            state: self.state.clone(),
            location_type: self.location_type.clone(),
            file_path: clone_text_opt(&self.file_path),
            image_url: clone_text_opt(&self.image_url),
            image_pull_policy: clone_text_opt(&self.image_pull_policy),
            username: clone_text_opt(&self.username),
            password: clone_text_opt(&self.password),
            map_pin_path: self.map_pin_path.clone(),
            map_owner_id: self.map_owner_id,
            program_bytes,
            metadata: self.metadata.clone(),
            global_data: self.global_data.clone(),
            retprobe: self.retprobe,
            fn_name: clone_text_opt(&self.fn_name),
            kernel_name: clone_text_opt(&self.kernel_name),
            kernel_program_type: self.kernel_program_type,
            kernel_loaded_at: clone_text_opt(&self.kernel_loaded_at),
            kernel_tag: clone_text_opt(&self.kernel_tag),
            kernel_gpl_compatible: self.kernel_gpl_compatible,
            kernel_btf_id: self.kernel_btf_id,
            kernel_bytes_xlated: self.kernel_bytes_xlated,
            kernel_jited: self.kernel_jited,
            kernel_bytes_jited: self.kernel_bytes_jited,
            kernel_verified_insns: self.kernel_verified_insns,
            kernel_map_ids: self.kernel_map_ids.clone(),
            kernel_bytes_memlock: self.kernel_bytes_memlock,
            created_at: self.created_at,
            updated_at: self.updated_at,
        }
    }
}

impl Default for BpfProgram {
    fn default() -> (r: BpfProgram)
        ensures
            r@ == BpfProgramView::blank(),
    {
        BpfProgram {
            id: 0,
            name: String::new(),
            description: None,
            kind: String::new(),
            state: String::new(),
            location_type: String::new(),
            file_path: None,
            image_url: None,
            image_pull_policy: None,
            username: None,
            password: None,
            map_pin_path: String::new(),
            map_owner_id: None,
            program_bytes: Vec::new(),
            metadata: String::from_str("{}"),
            global_data: String::from_str("{}"),
            retprobe: None,
            fn_name: None,
            kernel_name: None,
            kernel_program_type: None,
            kernel_loaded_at: None,
            kernel_tag: None,
            kernel_gpl_compatible: None,
            kernel_btf_id: None,
            kernel_bytes_xlated: None,
            kernel_jited: None,
            kernel_bytes_jited: None,
            kernel_verified_insns: None,
            kernel_map_ids: String::from_str("[]"),
            kernel_bytes_memlock: None,
            created_at: Timestamp::epoch(),
            updated_at: Timestamp::epoch(),
        }
    }
}

impl BpfProgram {
    /// Sets both timestamps to `now`, as is done when a row is first written.
    pub fn stamp_created(&mut self, now: Timestamp)
        ensures
            final(self)@ == old(self)@.stamped_created(now),
    {
        self.created_at = now;
        self.updated_at = now;
    }

    /// Sets the update timestamp to `now`, as is done whenever a row is rewritten.
    pub fn stamp_updated(&mut self, now: Timestamp)
        ensures
            final(self)@ == old(self)@.stamped_updated(now),
    {
        self.updated_at = now;
    }
}

/// An attachment of a program to a kernel hook point.
#[derive(Debug, PartialEq, Eq)]
pub struct BpfLink {
    /// Kernel identifier of the link.
    pub id: u64,
    /// Identifier of the program this link attaches.
    pub program_id: u64,
    /// Kind of attachment.
    pub link_type: Option<String>,
    /// What the program is attached to: an interface name, a cgroup path, ...
    pub target: Option<String>,
    /// Lifecycle state: `pre_attach` or `attached`.
    pub state: String,
    /// When the row was created.
    pub created_at: Timestamp,
    /// When the row was last written.
    pub updated_at: Timestamp,
}

/// The mathematical content of a link row.
pub struct BpfLinkView {
    pub id: u64,
    pub program_id: u64,
    pub link_type: Option<Seq<char>>,
    pub target: Option<Seq<char>>,
    pub state: Seq<char>,
    pub created_at: Timestamp,
    pub updated_at: Timestamp,
}

impl View for BpfLink {
    type V = BpfLinkView;

    open spec fn view(&self) -> BpfLinkView {
        BpfLinkView {
            id: self.id,
            program_id: self.program_id,
            link_type: text_opt(self.link_type),
            target: text_opt(self.target),
            state: self.state@,
            created_at: self.created_at,
            updated_at: self.updated_at,
        }
    }
}

impl BpfLinkView {
    /// A row that has not been filled in.
    pub open spec fn blank() -> BpfLinkView {
        BpfLinkView {
            id: 0,
            program_id: 0,
            link_type: None,
            target: None,
            state: Seq::empty(),
            created_at: Timestamp::spec_epoch(),
            updated_at: Timestamp::spec_epoch(),
        }
    }

    /// The same row with both timestamps set to `now`.
    pub open spec fn stamped_created(self, now: Timestamp) -> BpfLinkView {
        BpfLinkView { created_at: now, updated_at: now, ..self }
    }

    /// The same row with the update timestamp set to `now`.
    pub open spec fn stamped_updated(self, now: Timestamp) -> BpfLinkView {
        BpfLinkView { updated_at: now, ..self }
    }
}

impl Clone for BpfLink {
    fn clone(&self) -> (r: BpfLink)
        ensures
            r@ == self@,
    {
        BpfLink {
            id: self.id,
            program_id: self.program_id,
            link_type: clone_text_opt(&self.link_type),
            target: clone_text_opt(&self.target),
            state: self.state.clone(),
            created_at: self.created_at,
            updated_at: self.updated_at,
        }
    }
}

impl Default for BpfLink {
    fn default() -> (r: BpfLink)
        ensures
            r@ == BpfLinkView::blank(),
    {
        BpfLink {
            id: 0,
            program_id: 0,
            link_type: None,
            target: None,
            state: String::new(),
            created_at: Timestamp::epoch(),
            updated_at: Timestamp::epoch(),
        }
    }
}

impl BpfLink {
    /// Sets both timestamps to `now`, as is done when a row is first written.
    pub fn stamp_created(&mut self, now: Timestamp)
        ensures
            final(self)@ == old(self)@.stamped_created(now),
    {
        self.created_at = now;
        self.updated_at = now;
    }

    /// Sets the update timestamp to `now`, as is done whenever a row is rewritten.
    pub fn stamp_updated(&mut self, now: Timestamp)
        ensures
            final(self)@ == old(self)@.stamped_updated(now),
    {
        self.updated_at = now;
    }
}

/// A kernel map.
#[derive(Debug, PartialEq, Eq)]
pub struct BpfMap {
    /// Kernel identifier of the map.
    pub id: u64,
    /// Map name.
    pub name: String,
    /// Kind of map.
    pub map_type: Option<String>,
    /// Size of a key in bytes.
    pub key_size: Option<i32>,
    /// Size of a value in bytes.
    pub value_size: Option<i32>,
    /// Capacity of the map.
    pub max_entries: Option<i32>,
    /// When the row was created.
    pub created_at: Timestamp,
    /// When the row was last written.
    pub updated_at: Timestamp,
}

/// The mathematical content of a map row.
pub struct BpfMapView {
    pub id: u64,
    pub name: Seq<char>,
    pub map_type: Option<Seq<char>>,
    pub key_size: Option<i32>,
    pub value_size: Option<i32>,
    pub max_entries: Option<i32>,
    pub created_at: Timestamp,
    pub updated_at: Timestamp,
}

impl View for BpfMap {
    type V = BpfMapView;

    open spec fn view(&self) -> BpfMapView {
        BpfMapView {
            id: self.id,
            name: self.name@,
            map_type: text_opt(self.map_type),
            key_size: self.key_size,
            value_size: self.value_size,
            max_entries: self.max_entries,
            created_at: self.created_at,
            updated_at: self.updated_at,
        }
    }
}

impl BpfMapView {
    /// A row that has not been filled in.
    pub open spec fn blank() -> BpfMapView {
        BpfMapView {
            id: 0,
            name: Seq::empty(),
            map_type: None,
            key_size: None,
            value_size: None,
            max_entries: None,
            created_at: Timestamp::spec_epoch(),
            updated_at: Timestamp::spec_epoch(),
        }
    }

    /// The same row with both timestamps set to `now`.
    pub open spec fn stamped_created(self, now: Timestamp) -> BpfMapView {
        BpfMapView { created_at: now, updated_at: now, ..self }
    }

    /// The same row with the update timestamp set to `now`.
    pub open spec fn stamped_updated(self, now: Timestamp) -> BpfMapView {
        BpfMapView { updated_at: now, ..self }
    }
}

impl Clone for BpfMap {
    fn clone(&self) -> (r: BpfMap)
        ensures
            r@ == self@,
    {
        BpfMap {
            id: self.id,
            name: self.name.clone(),
            map_type: clone_text_opt(&self.map_type),
            key_size: self.key_size,
            value_size: self.value_size,
            max_entries: self.max_entries,
            created_at: self.created_at,
            updated_at: self.updated_at,
        }
    }
}

impl Default for BpfMap {
    fn default() -> (r: BpfMap)
        ensures
            r@ == BpfMapView::blank(),
    {
        BpfMap {
            id: 0,
            name: String::new(),
            map_type: None,
            key_size: None,
            value_size: None,
            max_entries: None,
            created_at: Timestamp::epoch(),
            updated_at: Timestamp::epoch(),
        }
    }
}

impl BpfMap {
    /// Sets both timestamps to `now`, as is done when a row is first written.
    pub fn stamp_created(&mut self, now: Timestamp)
        ensures
            final(self)@ == old(self)@.stamped_created(now),
    {
        self.created_at = now;
        self.updated_at = now;
    }

    /// Sets the update timestamp to `now`, as is done whenever a row is rewritten.
    pub fn stamp_updated(&mut self, now: Timestamp)
        ensures
            final(self)@ == old(self)@.stamped_updated(now),
    {
        self.updated_at = now;
    }
}

/// The association of one program with one map. It has no identity of its
/// own: the pair of identifiers is the whole row.
#[derive(Debug, Clone, Copy, PartialEq, Eq, Structural)]
pub struct BpfProgramMap {
    pub program_id: u64,
    pub map_id: u64,
}

} // verus!
