//! Naming and catalog rules: instance-name validation, parsing and rendering
//! of the lifecycle enums, and the image/runtime lookup tables used when
//! talking to the backends.

use vstd::prelude::*;

use crate::model::{Image, InstanceStage, InstanceStatus, Runtime, StatusView};
use crate::text::{str_eq, str_matches_lower, str_starts_lower, eq_lower, starts_lower};

verus! {

// ---------------------------------------------------------------------------
// Instance names.
// ---------------------------------------------------------------------------

pub open spec fn is_lower_char(c: char) -> bool {
    'a' <= c && c <= 'z'
}

pub open spec fn is_digit_char(c: char) -> bool {
    '0' <= c && c <= '9'
}

pub open spec fn is_name_mid_char(c: char) -> bool {
    is_lower_char(c) || is_digit_char(c) || c == '-'
}

/// A valid instance name is a DNS label of at most 63 characters: it starts
/// with a lowercase letter, ends with a lowercase letter or digit, and holds
/// only lowercase letters, digits and hyphens in between.
pub open spec fn valid_instance_name(s: Seq<char>) -> bool {
    &&& 1 <= s.len() <= 63
    &&& is_lower_char(s[0])
    &&& (s.len() > 1 ==> is_lower_char(s.last()) || is_digit_char(s.last()))
    &&& forall|j: int| 0 < j < s.len() - 1 ==> is_name_mid_char(#[trigger] s[j])
}

/// Returns true if and only if the name is a valid instance name.
///
/// Instance names become backend resource names (pod names, hostnames and so
/// on), so the DNS-label naming constraints apply to them.
pub fn verify_instance_name(name: &str) -> (r: bool)
    ensures
        r == valid_instance_name(name@),
{
    let n = name.unicode_len();
    if n == 0 || n > 63 {
        return false;
    }
    let first = name.get_char(0);
    if !('a' <= first && first <= 'z') {
        return false;
    }
    if n > 1 {
        let last = name.get_char(n - 1);
        if !(('a' <= last && last <= 'z') || ('0' <= last && last <= '9')) {
            return false;
        }
    }
    let mut k: usize = 1;
    while k + 1 < n
        invariant
            1 <= k,
            k <= n,
            n <= 63,
            n == name@.len(),
            forall|j: int| 0 < j < k ==> is_name_mid_char(#[trigger] name@[j]),
        decreases n - k,
    {
        let c = name.get_char(k);
        if !(('a' <= c && c <= 'z') || ('0' <= c && c <= '9') || c == '-') {
            return false;
        }
        k += 1;
    }
    true
}

// ---------------------------------------------------------------------------
// Runtimes.
// ---------------------------------------------------------------------------

/// Canonical rendering of a runtime.
pub open spec fn runtime_display(r: Runtime) -> Seq<char> {
    match r {
        Runtime::Kata => "kata"@,
        Runtime::Runc => "runc"@,
        Runtime::Lxc => "lxc"@,
        Runtime::Kvm => "kvm"@,
    }
}

/// The runtime a string denotes, compared ASCII case-insensitively.
pub open spec fn spec_runtime_of(s: Seq<char>) -> Option<Runtime> {
    if str_matches_lower(s, "kata"@) {
        Some(Runtime::Kata)
    } else if str_matches_lower(s, "runc"@) {
        Some(Runtime::Runc)
    } else if str_matches_lower(s, "lxc"@) {
        Some(Runtime::Lxc)
    } else if str_matches_lower(s, "kvm"@) {
        Some(Runtime::Kvm)
    } else {
        None
    }
}

impl Runtime {
    pub fn as_str(&self) -> (r: &'static str)
        ensures
            r@ == runtime_display(*self),
    {
        match self {
            Runtime::Kata => "kata",
            Runtime::Runc => "runc",
            Runtime::Lxc => "lxc",
            Runtime::Kvm => "kvm",
        }
    }

    pub fn to_string(&self) -> (r: String)
        ensures
            r@ == runtime_display(*self),
    {
        self.as_str().to_owned()
    }

    /// Parses a runtime name, accepting any ASCII case.
    pub fn parse(s: &str) -> (r: Option<Runtime>)
        ensures
            r == spec_runtime_of(s@),
    {
        if eq_lower(s, "kata") {
            Some(Runtime::Kata)
        } else if eq_lower(s, "runc") {
            Some(Runtime::Runc)
        } else if eq_lower(s, "lxc") {
            Some(Runtime::Lxc)
        } else if eq_lower(s, "kvm") {
            Some(Runtime::Kvm)
        } else {
            None
        }
    }
}

// ---------------------------------------------------------------------------
// Images.
// ---------------------------------------------------------------------------

/// Canonical rendering of an image.
pub open spec fn image_display(i: Image) -> Seq<char> {
    match i {
        Image::CentOS7 => "centos:7"@,
        Image::CentOS8 => "centos:8"@,
        Image::CentOS9Stream => "centos:9-Stream"@,
        Image::Ubuntu2004 => "ubuntu:20.04"@,
        Image::Ubuntu2204 => "ubuntu:22.04"@,
    }
}

/// The image a string denotes. Repository-style names may carry a tag after
/// a colon; bare names and canonical renderings are compared ASCII
/// case-insensitively.
pub open spec fn spec_image_of(s: Seq<char>) -> Option<Image> {
    if str_starts_lower(s, "tispace/centos7:"@) {
        Some(Image::CentOS7)
    } else if str_starts_lower(s, "tispace/centos8:"@) {
        Some(Image::CentOS8)
    } else if str_starts_lower(s, "tispace/centos9-stream:"@) {
        Some(Image::CentOS9Stream)
    } else if str_starts_lower(s, "tispace/ubuntu2004:"@) {
        Some(Image::Ubuntu2004)
    } else if str_matches_lower(s, "tispace/centos7"@) || str_matches_lower(s, "centos7"@)
        || str_matches_lower(s, "centos:7"@) {
        Some(Image::CentOS7)
    } else if str_matches_lower(s, "tispace/centos8"@) || str_matches_lower(s, "centos8"@)
        || str_matches_lower(s, "centos:8"@) {
        Some(Image::CentOS8)
    } else if str_matches_lower(s, "tispace/centos9-stream"@) || str_matches_lower(
        s,
        "centos9-stream"@,
    ) || str_matches_lower(s, "centos:9-stream"@) {
        Some(Image::CentOS9Stream)
    } else if str_matches_lower(s, "tispace/ubuntu2004"@) || str_matches_lower(s, "ubuntu2004"@)
        || str_matches_lower(s, "ubuntu:20.04"@) {
        Some(Image::Ubuntu2004)
    } else if str_matches_lower(s, "ubuntu2204"@) || str_matches_lower(s, "ubuntu:22.04"@) {
        Some(Image::Ubuntu2204)
    } else {
        None
    }
}

impl Image {
    pub fn as_str(&self) -> (r: &'static str)
        ensures
            r@ == image_display(*self),
    {
        match self {
            Image::CentOS7 => "centos:7",
            Image::CentOS8 => "centos:8",
            Image::CentOS9Stream => "centos:9-Stream",
            Image::Ubuntu2004 => "ubuntu:20.04",
            Image::Ubuntu2204 => "ubuntu:22.04",
        }
    }

    pub fn to_string(&self) -> (r: String)
        ensures
            r@ == image_display(*self),
    {
        self.as_str().to_owned()
    }

    /// Parses an image name, accepting any ASCII case.
    pub fn parse(s: &str) -> (r: Option<Image>)
        ensures
            r == spec_image_of(s@),
    {
        if starts_lower(s, "tispace/centos7:") {
            Some(Image::CentOS7)
        } else if starts_lower(s, "tispace/centos8:") {
            Some(Image::CentOS8)
        } else if starts_lower(s, "tispace/centos9-stream:") {
            Some(Image::CentOS9Stream)
        } else if starts_lower(s, "tispace/ubuntu2004:") {
            Some(Image::Ubuntu2004)
        } else if eq_lower(s, "tispace/centos7") || eq_lower(s, "centos7") || eq_lower(
            s,
            "centos:7",
        ) {
            Some(Image::CentOS7)
        } else if eq_lower(s, "tispace/centos8") || eq_lower(s, "centos8") || eq_lower(
            s,
            "centos:8",
        ) {
            Some(Image::CentOS8)
        } else if eq_lower(s, "tispace/centos9-stream") || eq_lower(s, "centos9-stream")
            || eq_lower(s, "centos:9-stream") {
            Some(Image::CentOS9Stream)
        } else if eq_lower(s, "tispace/ubuntu2004") || eq_lower(s, "ubuntu2004") || eq_lower(
            s,
            "ubuntu:20.04",
        ) {
            Some(Image::Ubuntu2004)
        } else if eq_lower(s, "ubuntu2204") || eq_lower(s, "ubuntu:22.04") {
            Some(Image::Ubuntu2204)
        } else {
            None
        }
    }
}

// ---------------------------------------------------------------------------
// Stages and statuses.
// ---------------------------------------------------------------------------

/// Canonical rendering of a stage.
pub open spec fn stage_display(s: InstanceStage) -> Seq<char> {
    match s {
        InstanceStage::Stopped => "Stopped"@,
        InstanceStage::Running => "Running"@,
        InstanceStage::Deleted => "Deleted"@,
    }
}

/// The stage a string denotes, compared exactly.
pub open spec fn spec_stage_of(s: Seq<char>) -> Option<InstanceStage> {
    if s == "Stopped"@ {
        Some(InstanceStage::Stopped)
    } else if s == "Running"@ {
        Some(InstanceStage::Running)
    } else if s == "Deleted"@ {
        Some(InstanceStage::Deleted)
    } else {
        None
    }
}

impl InstanceStage {
    pub fn as_str(&self) -> (r: &'static str)
        ensures
            r@ == stage_display(*self),
    {
        match self {
            InstanceStage::Stopped => "Stopped",
            InstanceStage::Running => "Running",
            InstanceStage::Deleted => "Deleted",
        }
    }

    pub fn parse(s: &str) -> (r: Option<InstanceStage>)
        ensures
            r == spec_stage_of(s@),
    {
        if str_eq(s, "Stopped") {
            Some(InstanceStage::Stopped)
        } else if str_eq(s, "Running") {
            Some(InstanceStage::Running)
        } else if str_eq(s, "Deleted") {
            Some(InstanceStage::Deleted)
        } else {
            None
        }
    }
}

/// Canonical rendering of a status; an error renders its message after the
/// `Error: ` prefix.
pub open spec fn status_display(s: StatusView) -> Seq<char> {
    match s {
        StatusView::Creating => "Creating"@,
        StatusView::Starting => "Starting"@,
        StatusView::Running => "Running"@,
        StatusView::Stopping => "Stopping"@,
        StatusView::Stopped => "Stopped"@,
        StatusView::Deleting => "Deleting"@,
        StatusView::Missing => "Missing"@,
        StatusView::Error(m) => "Error: "@ + m,
    }
}

/// The status a string denotes, compared exactly; anything after an
/// `Error: ` prefix is the error message.
pub open spec fn spec_status_of(s: Seq<char>) -> Option<StatusView> {
    if s == "Creating"@ {
        Some(StatusView::Creating)
    } else if s == "Starting"@ {
        Some(StatusView::Starting)
    } else if s == "Running"@ {
        Some(StatusView::Running)
    } else if s == "Stopping"@ {
        Some(StatusView::Stopping)
    } else if s == "Stopped"@ {
        Some(StatusView::Stopped)
    } else if s == "Deleting"@ {
        Some(StatusView::Deleting)
    } else if s == "Missing"@ {
        Some(StatusView::Missing)
    } else if s.len() >= 7 && s.take(7) == "Error: "@ {
        Some(StatusView::Error(s.skip(7)))
    } else {
        None
    }
}

impl InstanceStatus {
    pub fn to_string(&self) -> (r: String)
        ensures
            r@ == status_display(self@),
    {
        match self {
            InstanceStatus::Creating => "Creating".to_owned(),
            InstanceStatus::Starting => "Starting".to_owned(),
            InstanceStatus::Running => "Running".to_owned(),
            InstanceStatus::Stopping => "Stopping".to_owned(),
            InstanceStatus::Stopped => "Stopped".to_owned(),
            InstanceStatus::Deleting => "Deleting".to_owned(),
            InstanceStatus::Missing => "Missing".to_owned(),
            InstanceStatus::Error(m) => {
                let mut s = "Error: ".to_owned();
                s.append(m.as_str());
                s
            },
        }
    }

    pub fn parse(s: &str) -> (r: Option<InstanceStatus>)
        ensures
            match r {
                Some(v) => spec_status_of(s@) == Some(v@),
                None => spec_status_of(s@) is None,
            },
    {
        if str_eq(s, "Creating") {
            Some(InstanceStatus::Creating)
        } else if str_eq(s, "Starting") {
            Some(InstanceStatus::Starting)
        } else if str_eq(s, "Running") {
            Some(InstanceStatus::Running)
        } else if str_eq(s, "Stopping") {
            Some(InstanceStatus::Stopping)
        } else if str_eq(s, "Stopped") {
            Some(InstanceStatus::Stopped)
        } else if str_eq(s, "Deleting") {
            Some(InstanceStatus::Deleting)
        } else if str_eq(s, "Missing") {
            Some(InstanceStatus::Missing)
        } else {
            let n = s.unicode_len();
            if n >= 7 {
                let prefix = s.substring_char(0, 7);
                if str_eq(prefix, "Error: ") {
                    let msg = s.substring_char(7, n);
                    proof {
                        assert(s@.take(7) =~= s@.subrange(0, 7));
                        assert(s@.skip(7) =~= s@.subrange(7, s@.len() as int));
                    }
                    return Some(InstanceStatus::Error(msg.to_owned()));
                }
            }
            None
        }
    }
}

// ---------------------------------------------------------------------------
// Backend lookup tables.
// ---------------------------------------------------------------------------

/// Whether a character sequence holds a colon (i.e. an image tag separator).
pub open spec fn has_colon(s: Seq<char>) -> bool {
    exists|j: int| 0 <= j < s.len() && s[j] == ':'
}

/// Appends `:<default_tag>` to a repository image name that has no tag yet.
pub fn append_image_tag_if_missing(image: String, default_tag: &str) -> (r: String)
    ensures
        r@ == if has_colon(image@) {
            image@
        } else {
            image@ + ":"@ + default_tag@
        },
{
    let n = image.as_str().unicode_len();
    let mut k: usize = 0;
    while k < n
        invariant
            0 <= k <= n,
            n == image@.len(),
            forall|j: int| 0 <= j < k ==> image@[j] != ':',
        decreases n - k,
    {
        if image.as_str().get_char(k) == ':' {
            return image;
        }
        k += 1;
    }
    proof {
        assert(!has_colon(image@));
    }
    let mut out = image;
    out.append(":");
    out.append(default_tag);
    out
}

/// The claim name of the root filesystem volume behind a pod.
pub fn rootfs_name(pod_name: &str) -> (r: String)
    ensures
        r@ == pod_name@ + "-rootfs"@,
{
    let mut s = pod_name.to_owned();
    s.append("-rootfs");
    s
}

/// The repository image that seeds a pod's root filesystem, tagged with the
/// configured default tag; only the pod-capable images have one.
pub fn get_image_url(image: &Image, default_tag: &str) -> (r: Option<String>)
    ensures
        match r {
            Some(s) => {
                ||| (*image == Image::CentOS7 && s@ == "tispace/centos7:"@ + default_tag@)
                ||| (*image == Image::Ubuntu2004 && s@ == "tispace/ubuntu2004:"@ + default_tag@)
            },
            None => *image != Image::CentOS7 && *image != Image::Ubuntu2004,
        },
{
    match image {
        Image::CentOS7 => {
            let mut s = "tispace/centos7:".to_owned();
            s.append(default_tag);
            Some(s)
        },
        Image::Ubuntu2004 => {
            let mut s = "tispace/ubuntu2004:".to_owned();
            s.append(default_tag);
            Some(s)
        },
        _ => None,
    }
}

/// The runtime class a pod runs under; only pod-based runtimes have one.
pub fn get_runtime_class_name(runtime: &Runtime) -> (r: Option<String>)
    ensures
        match r {
            Some(s) => runtime.spec_is_pod_based() && s@ == runtime_display(*runtime),
            None => !runtime.spec_is_pod_based(),
        },
{
    match runtime {
        Runtime::Kata => Some("kata".to_owned()),
        Runtime::Runc => Some("runc".to_owned()),
        _ => None,
    }
}

/// The image-server alias an LXD instance boots from; only the images of the
/// container/VM catalog have one.
pub open spec fn spec_image_alias(i: Image) -> Option<Seq<char>> {
    match i {
        Image::CentOS7 => Some("centos/7/cloud"@),
        Image::CentOS9Stream => Some("centos/9-Stream"@),
        Image::Ubuntu2004 => Some("ubuntu/20.04/cloud"@),
        Image::Ubuntu2204 => Some("ubuntu/22.04/cloud"@),
        Image::CentOS8 => None,
    }
}

pub fn get_image_alias(image: &Image) -> (r: Option<String>)
    ensures
        match r {
            Some(s) => spec_image_alias(*image) == Some(s@),
            None => spec_image_alias(*image) is None,
        },
{
    match image {
        Image::CentOS7 => Some("centos/7/cloud".to_owned()),
        Image::CentOS9Stream => Some("centos/9-Stream".to_owned()),
        Image::Ubuntu2004 => Some("ubuntu/20.04/cloud".to_owned()),
        Image::Ubuntu2204 => Some("ubuntu/22.04/cloud".to_owned()),
        Image::CentOS8 => None,
    }
}

/// The LXD instance type for a runtime; only lxc and kvm have one.
pub open spec fn spec_instance_type(r: Runtime) -> Option<Seq<char>> {
    match r {
        Runtime::Lxc => Some("container"@),
        Runtime::Kvm => Some("virtual-machine"@),
        _ => None,
    }
}

pub fn get_instance_type(runtime: &Runtime) -> (r: Option<String>)
    ensures
        match r {
            Some(s) => spec_instance_type(*runtime) == Some(s@),
            None => spec_instance_type(*runtime) is None,
        },
{
    match runtime {
        Runtime::Lxc => Some("container".to_owned()),
        Runtime::Kvm => Some("virtual-machine".to_owned()),
        _ => None,
    }
}

} // verus!
