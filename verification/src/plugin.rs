//! Kernel admission and the registry of admitted kernels.
//!
//! Loading libraries and calling into them is the program's business. What is
//! decided here is which descriptor and which manifest are admitted, in what
//! order kernels are listed, and what a typed dispatch has to satisfy before
//! it reaches a kernel.
use crate::artifact::power_of_two;
use crate::bytes::bytes_of_u32;
use crate::bytes::{u32_at, u32_bytes, u32_round_trip, u64_at, u64_bytes, u64_round_trip};
use crate::cpu::CpuFeatures;
use crate::digest::sha256;
use crate::digest::sha256_digest;
use crate::kernels::abi::matmul_params;
use crate::kernels::abi::{
    KernelPlugin, MatmulParams, ABI_VERSION, OPERATION_ELEMENTWISE, OPERATION_MATMUL,
    OPERATION_MATMUL_ACT, OPERATION_XOR_SHIFT_ADD, TYPE_F32, TYPE_U64,
};
use crate::ops::dispatch_returned;
use crate::ops::{KernelCall, PluginDispatch};
use crate::plan::matmul_lengths;
use crate::source::{characters, spells};
use crate::text::{decimal, hexadecimal, hexadecimal_is_injective};
use crate::text::{format_digest, push_decimal, same_text};
use vstd::arithmetic::power2::is_pow2;
use vstd::prelude::*;
use vstd::string::StringExecFns;
use vstd::utf8::encode_utf8;

verus! {

/// The version of the manifest format.
pub const MANIFEST_FORMAT: u16 = 1;

#[derive(Debug, PartialEq, Eq)]
pub enum PluginError {
    /// The plugin exceeds the configured size limit.
    TooLarge,
    /// The entry point returned no descriptor.
    NullDescriptor,
    /// The ABI version is not supported.
    Abi(u32),
    /// The descriptor has no name.
    NullName,
    /// The descriptor's name is not valid UTF-8.
    NameEncoding,
    /// The descriptor declares buffer types that its operation does not take.
    BufferType,
    /// The descriptor declares an operation kind that is not supported.
    Operation(u16),
    /// The descriptor declares an alignment that is no power of two.
    Alignment(u32),
    /// The kernel requires CPU features that the host lacks.
    CpuFeatures(u64),
    /// The kernel asks for scratch memory, which is not supported.
    ScratchBytes(u64),
    /// The kernel answered a call with a status other than success.
    KernelStatus(i32),
    /// A length does not fit the ABI.
    LengthOverflow,
    /// The buffers do not have the lengths that the operation takes.
    BufferLength,
    /// The kernel has another operation kind than the dispatch needs.
    KernelKind { expected: u16, actual: u16 },
    /// The plugin has no manifest.
    ManifestMissing(String),
    /// The plugin is not the one that its manifest describes.
    HashMismatch(String),
    /// No admitted kernel has this name.
    NotFound(String),
    /// The kernel was reached and the dispatch failed.
    Dispatch(String),
}

/// What a descriptor's name pointer leads to.
pub enum DescriptorName {
    Null,
    NotUtf8,
    Text(String),
}

/// The buffer type that an operation kind takes and gives, if it is supported.
pub open spec fn buffer_type(operation: u16) -> Option<u16> {
    if operation == OPERATION_ELEMENTWISE || operation == OPERATION_MATMUL || operation
        == OPERATION_MATMUL_ACT {
        Some(TYPE_F32)
    } else if operation == OPERATION_XOR_SHIFT_ADD {
        Some(TYPE_U64)
    } else {
        None
    }
}

/// What keeps a descriptor from being admitted on a host, its name aside.
pub open spec fn descriptor_fault(plugin: KernelPlugin, host: CpuFeatures) -> Option<PluginError> {
    if plugin.abi_version != ABI_VERSION {
        Some(PluginError::Abi(plugin.abi_version))
    } else if buffer_type(plugin.operation) is None {
        Some(PluginError::Operation(plugin.operation))
    } else if Some(plugin.input_type) != buffer_type(plugin.operation) || Some(plugin.output_type)
        != buffer_type(plugin.operation) {
        Some(PluginError::BufferType)
    } else if !is_pow2(plugin.required_alignment as int) {
        Some(PluginError::Alignment(plugin.required_alignment))
    } else if plugin.scratch_bytes != 0 {
        Some(PluginError::ScratchBytes(plugin.scratch_bytes))
    } else if plugin.cpu_features & !host.available() != 0 {
        Some(PluginError::CpuFeatures(plugin.cpu_features))
    } else {
        None
    }
}

/// Validates what a plugin's entry point returned; gives the kernel's name.
pub fn check_descriptor(
    plugin: Option<&KernelPlugin>,
    name: DescriptorName,
    host: CpuFeatures,
) -> (result: Result<String, PluginError>)
    ensures
        match plugin {
            None => result == Err::<String, _>(PluginError::NullDescriptor),
            Some(plugin) => match descriptor_fault(*plugin, host) {
                Some(error) => result == Err::<String, _>(error),
                None => match name {
                    DescriptorName::Null => result == Err::<String, _>(PluginError::NullName),
                    DescriptorName::NotUtf8 => result == Err::<String, _>(
                        PluginError::NameEncoding,
                    ),
                    DescriptorName::Text(text) => result == Ok::<_, PluginError>(text),
                },
            },
        },
{
    let plugin = match plugin {
        None => return Err(PluginError::NullDescriptor),
        Some(plugin) => plugin,
    };
    if plugin.abi_version != ABI_VERSION {
        return Err(PluginError::Abi(plugin.abi_version));
    }
    let element: u16 = match operation_type(plugin.operation) {
        None => return Err(PluginError::Operation(plugin.operation)),
        Some(element) => element,
    };
    if plugin.input_type != element || plugin.output_type != element {
        return Err(PluginError::BufferType);
    }
    if !power_of_two(plugin.required_alignment as u64) {
        return Err(PluginError::Alignment(plugin.required_alignment));
    }
    if plugin.scratch_bytes != 0 {
        return Err(PluginError::ScratchBytes(plugin.scratch_bytes));
    }
    if !host.supports(plugin.cpu_features) {
        return Err(PluginError::CpuFeatures(plugin.cpu_features));
    }
    match name {
        DescriptorName::Null => Err(PluginError::NullName),
        DescriptorName::NotUtf8 => Err(PluginError::NameEncoding),
        DescriptorName::Text(text) => Ok(text),
    }
}

/// The buffer type that an operation kind takes and gives, if it is supported.
pub fn operation_type(operation: u16) -> (element: Option<u16>)
    ensures
        element == buffer_type(operation),
{
    if operation == OPERATION_ELEMENTWISE || operation == OPERATION_MATMUL || operation
        == OPERATION_MATMUL_ACT {
        Some(TYPE_F32)
    } else if operation == OPERATION_XOR_SHIFT_ADD {
        Some(TYPE_U64)
    } else {
        None
    }
}

/// Admits a plugin of `actual` bytes under a limit.
pub fn check_size(actual: u64, limit: u64) -> (result: Result<(), PluginError>)
    ensures
        actual <= limit ==> result == Ok::<_, PluginError>(()),
        actual > limit ==> result == Err::<(), _>(PluginError::TooLarge),
{
    if actual > limit {
        return Err(PluginError::TooLarge);
    }
    Ok(())
}

/// What is recorded of an admitted plugin next to it.
pub struct PluginManifest {
    pub format: u16,
    pub name: String,
    pub abi_version: u32,
    pub artifact_sha256: String,
    pub file_bytes: u64,
    pub cpu_features: Vec<String>,
}

/// Where the manifest of a plugin stands.
pub fn manifest_path(path: &str) -> (manifest: String)
    ensures
        manifest@ == path@ + ".manifest.toml"@,
{
    let mut manifest = String::from_str(path);
    manifest.append(".manifest.toml");
    manifest
}

/// Whether a file is a manifest by its name, and so no plugin.
pub fn is_manifest(path: &str) -> (result: bool)
    ensures
        result == (path@.len() >= 14 && path@.skip(path@.len() - 14) == ".manifest.toml"@),
{
    let characters: Vec<char> = characters(path);
    if characters.len() < 14 {
        return false;
    }
    let tail: &[char] = &characters.as_slice()[characters.len() - 14..characters.len()];
    assert(tail@ =~= path@.skip(path@.len() - 14));
    spells(tail, ".manifest.toml")
}

/// The manifest records these bytes under this ABI.
pub open spec fn describes(manifest: PluginManifest, digest: Seq<u8>, length: nat) -> bool {
    &&& manifest.artifact_sha256@ == hexadecimal(digest)
    &&& manifest.file_bytes == length
    &&& manifest.abi_version == ABI_VERSION
}

/// The manifest of a plugin that is being installed.
pub fn build_manifest(name: String, bytes: &[u8]) -> (manifest: PluginManifest)
    ensures
        manifest.format == MANIFEST_FORMAT,
        manifest.name == name,
        describes(manifest, sha256_digest(bytes@), bytes@.len()),
        manifest.cpu_features@.len() == 0,
{
    let digest: Vec<u8> = sha256(bytes);
    manifest_of_digest(name, digest.as_slice(), bytes.len() as u64)
}

/// The manifest of a plugin with this digest and length.
pub fn manifest_of_digest(name: String, digest: &[u8], file_bytes: u64) -> (manifest:
    PluginManifest)
    ensures
        manifest.format == MANIFEST_FORMAT,
        manifest.name == name,
        describes(manifest, digest@, file_bytes as nat),
        manifest.cpu_features@.len() == 0,
{
    PluginManifest {
        format: MANIFEST_FORMAT,
        name,
        abi_version: ABI_VERSION,
        artifact_sha256: format_digest(digest),
        file_bytes,
        cpu_features: Vec::new(),
    }
}

/// Checks a plugin's bytes against its manifest.
pub fn verify_manifest(manifest: &PluginManifest, bytes: &[u8], path: String) -> (result: Result<
    (),
    PluginError,
>)
    ensures
        describes(*manifest, sha256_digest(bytes@), bytes@.len()) ==> result is Ok,
        !describes(*manifest, sha256_digest(bytes@), bytes@.len()) ==> result == Err::<(), _>(
            PluginError::HashMismatch(path),
        ),
{
    let digest: Vec<u8> = sha256(bytes);
    verify_digest(manifest, digest.as_slice(), bytes.len(), path)
}

/// Checks a plugin's digest and length against its manifest.
pub fn verify_digest(
    manifest: &PluginManifest,
    digest: &[u8],
    length: usize,
    path: String,
) -> (result: Result<(), PluginError>)
    ensures
        describes(*manifest, digest@, length as nat) ==> result is Ok,
        !describes(*manifest, digest@, length as nat) ==> result == Err::<(), _>(
            PluginError::HashMismatch(path),
        ),
{
    let text = format_digest(digest);
    if text != manifest.artifact_sha256 || manifest.file_bytes != length as u64
        || manifest.abi_version != ABI_VERSION {
        return Err(PluginError::HashMismatch(path));
    }
    Ok(())
}

/// Checks the name that a loaded plugin announces against its manifest.
pub fn verify_name(manifest: &PluginManifest, name: &String, path: String) -> (result: Result<
    (),
    PluginError,
>)
    ensures
        manifest.name@ == name@ ==> result is Ok,
        manifest.name@ != name@ ==> result == Err::<(), _>(PluginError::HashMismatch(path)),
{
    if manifest.name != *name {
        return Err(PluginError::HashMismatch(path));
    }
    Ok(())
}

/// A manifest admits no bytes of another digest or another length.
pub proof fn manifest_admits_one_digest(
    manifest: PluginManifest,
    digest: Seq<u8>,
    length: nat,
    other: Seq<u8>,
    other_length: nat,
)
    requires
        describes(manifest, digest, length),
        describes(manifest, other, other_length),
    ensures
        digest == other,
        length == other_length,
{
    hexadecimal_is_injective(digest, other);
}

/// What a kernel's status means to the caller.
pub fn status_result(status: i32) -> (result: Result<(), PluginError>)
    ensures
        status == 0 ==> result is Ok,
        status != 0 ==> result == Err::<(), _>(PluginError::KernelStatus(status)),
{
    if status != 0 {
        return Err(PluginError::KernelStatus(status));
    }
    Ok(())
}

/// The bounded self-test: a kernel must answer the same input with the same
/// values, bit by bit.
pub fn check_determinism(first: &[u32], second: &[u32]) -> (result: Result<(), PluginError>)
    ensures
        first@ == second@ ==> result is Ok,
        first@ != second@ ==> result == Err::<(), _>(
            PluginError::KernelStatus((-1) as i32),
        ),
{
    if first.len() != second.len() {
        return Err(PluginError::KernelStatus(-1));
    }
    let mut index: usize = 0;
    while index < first.len()
        invariant
            index <= first@.len(),
            first@.len() == second@.len(),
            forall|i: int| 0 <= i < index ==> first@[i] == second@[i],
        decreases first@.len() - index,
    {
        if first[index] != second[index] {
            return Err(PluginError::KernelStatus(-1));
        }
        index += 1;
    }
    assert(first@ =~= second@);
    Ok(())
}

/// The verdict of a self-test on the values that its rounds left: all rounds
/// must have left what the first one left.
pub fn judge_rounds(outcomes: &[Vec<u32>]) -> (result: Result<(), PluginError>)
    ensures
        rounds_agree(outcomes@) ==> result is Ok,
        !rounds_agree(outcomes@) ==> result == Err::<(), _>(
            PluginError::KernelStatus((-1) as i32),
        ),
{
    let mut round: usize = 1;
    while round < outcomes.len()
        invariant
            1 <= round,
            forall|i: int| 0 <= i < round && i < outcomes@.len() ==> (#[trigger] outcomes@[i])@
                == outcomes@[0]@,
        decreases outcomes@.len() - round,
    {
        match check_determinism(outcomes[0].as_slice(), outcomes[round].as_slice()) {
            Ok(_) => {},
            Err(error) => return Err(error),
        }
        round += 1;
    }
    Ok(())
}

/// All rounds of a self-test left what the first one left.
pub open spec fn rounds_agree(outcomes: Seq<Vec<u32>>) -> bool {
    forall|i: int| 0 <= i < outcomes.len() ==> (#[trigger] outcomes[i])@ == outcomes[0]@
}

/// One admitted kernel: its name, its operation kind, and whatever the program
/// keeps of it.
pub struct RegistryEntry<P> {
    pub name: String,
    pub operation: u16,
    pub payload: P,
}

/// The admitted kernels, in ascending order of their names.
pub struct PluginRegistry<P> {
    pub entries: Vec<RegistryEntry<P>>,
}

/// Resolved once, a handle stands for a name in repeated dispatches.
#[derive(Clone, Copy, Debug, PartialEq, Eq, Structural)]
pub struct KernelHandle {
    pub index: usize,
}

/// `first` does not come after `second` in the lexicographic order of bytes.
pub open spec fn not_after(first: Seq<u8>, second: Seq<u8>) -> bool
    decreases first.len(),
{
    if first.len() == 0 {
        true
    } else if second.len() == 0 {
        false
    } else if first[0] == second[0] {
        not_after(first.skip(1), second.skip(1))
    } else {
        first[0] < second[0]
    }
}

/// The names' order is that of their UTF-8 bytes.
pub open spec fn name_not_after(first: Seq<char>, second: Seq<char>) -> bool {
    not_after(encode_utf8(first), encode_utf8(second))
}

/// Whether `first` does not come after `second`.
fn bytes_not_after(first: &[u8], second: &[u8]) -> (result: bool)
    ensures
        result == not_after(first@, second@),
{
    let mut index: usize = 0;
    proof {
        assert(first@.skip(0) =~= first@);
        assert(second@.skip(0) =~= second@);
    }
    while index < first.len()
        invariant
            index <= first@.len(),
            index <= second@.len(),
            not_after(first@, second@) == not_after(
                first@.skip(index as int),
                second@.skip(index as int),
            ),
        decreases first@.len() - index,
    {
        if index == second.len() {
            return false;
        }
        if first[index] != second[index] {
            return first[index] < second[index];
        }
        proof {
            assert(first@.skip(index as int).skip(1) =~= first@.skip(index + 1));
            assert(second@.skip(index as int).skip(1) =~= second@.skip(index + 1));
        }
        index += 1;
    }
    true
}

/// The order is total.
proof fn order_is_total(first: Seq<u8>, second: Seq<u8>)
    ensures
        not_after(first, second) || not_after(second, first),
    decreases first.len(),
{
    if first.len() > 0 && second.len() > 0 && first[0] == second[0] {
        order_is_total(first.skip(1), second.skip(1));
    }
}

/// The order is transitive.
proof fn order_is_transitive(first: Seq<u8>, second: Seq<u8>, third: Seq<u8>)
    requires
        not_after(first, second),
        not_after(second, third),
    ensures
        not_after(first, third),
    decreases first.len(),
{
    if first.len() > 0 && first[0] == second[0] && second[0] == third[0] {
        order_is_transitive(first.skip(1), second.skip(1), third.skip(1));
    }
}

/// The name and the operation kind of every entry.
pub open spec fn listing<P>(entries: Seq<RegistryEntry<P>>) -> Seq<(Seq<char>, u16)> {
    Seq::new(entries.len(), |i: int| (entries[i].name@, entries[i].operation))
}

/// The place of the first entry with a name, if there is one.
pub open spec fn first_named(listing: Seq<(Seq<char>, u16)>, name: Seq<char>) -> Option<int>
    decreases listing.len(),
{
    if listing.len() == 0 {
        None
    } else {
        match first_named(listing.drop_last(), name) {
            Some(index) => Some(index),
            None => if listing.last().0 == name {
                Some(listing.len() - 1)
            } else {
                None
            },
        }
    }
}

/// `index` is the place of the first entry with a name.
pub open spec fn is_first_named(
    listing: Seq<(Seq<char>, u16)>,
    name: Seq<char>,
    index: int,
) -> bool {
    &&& 0 <= index < listing.len()
    &&& listing[index].0 == name
    &&& forall|i: int| 0 <= i < index ==> (#[trigger] listing[i]).0 != name
}

/// What `first_named` finds is the first entry with the name, and it finds one
/// exactly when there is one.
pub proof fn first_named_is_first(listing: Seq<(Seq<char>, u16)>, name: Seq<char>)
    ensures
        first_named(listing, name) matches Some(index) ==> is_first_named(listing, name, index),
        first_named(listing, name) is None ==> forall|i: int|
            0 <= i < listing.len() ==> (#[trigger] listing[i]).0 != name,
    decreases listing.len(),
{
    if listing.len() > 0 {
        let front = listing.drop_last();
        first_named_is_first(front, name);
        assert forall|i: int| 0 <= i < front.len() implies #[trigger] front[i] == listing[i] by {}
        if first_named(front, name) is None {
            assert forall|i: int| 0 <= i < listing.len() - 1 implies (#[trigger] listing[i]).0
                != name by {
                assert(front[i].0 != name);
            }
        } else {
            let index = first_named(front, name)->Some_0;
            assert forall|i: int| 0 <= i < index implies (#[trigger] listing[i]).0 != name by {
                assert(front[i].0 != name);
            }
        }
    }
}

impl<P> PluginRegistry<P> {
    /// Names and operation kinds, in order.
    pub open spec fn kernels(&self) -> Seq<(Seq<char>, u16)> {
        listing(self.entries@)
    }

    /// No entry comes after one that follows it.
    pub open spec fn sorted(&self) -> bool {
        forall|i: int, j: int|
            #![trigger self.entries@[i], self.entries@[j]]
            0 <= i <= j < self.entries@.len() ==> name_not_after(
                self.entries@[i].name@,
                self.entries@[j].name@,
            )
    }

    /// A registry without kernels.
    pub fn new() -> (registry: Self)
        ensures
            registry.entries@ == Seq::<RegistryEntry<P>>::empty(),
            registry.sorted(),
    {
        PluginRegistry { entries: Vec::new() }
    }

    /// Lists a kernel behind all that do not come after it.
    pub fn enlist(&mut self, entry: RegistryEntry<P>)
        requires
            old(self).sorted(),
        ensures
            final(self).sorted(),
            exists|place: int|
                0 <= place <= old(self).entries@.len() && final(self).entries@
                    == #[trigger] old(self).entries@.insert(place, entry) && (forall|i: int|
                    0 <= i < old(self).entries@.len() ==> (i < place <==> name_not_after(
                        (#[trigger] old(self).entries@[i]).name@,
                        entry.name@,
                    ))),
    {
        let mut place: usize = self.entries.len();
        let ghost before = self.entries@;
        let ghost name = encode_utf8(entry.name@);
        while place > 0 && !bytes_not_after(
            self.entries[place - 1].name.as_str().as_bytes(),
            entry.name.as_str().as_bytes(),
        )
            invariant
                place <= before.len(),
                self.entries@ == before,
                before == old(self).entries@,
                old(self).sorted(),
                forall|i: int|
                    place <= i < before.len() ==> !name_not_after(
                        (#[trigger] before[i]).name@,
                        entry.name@,
                    ),
            decreases place,
        {
            place = place - 1;
        }
        proof {
            assert forall|i: int| 0 <= i < place implies name_not_after(
                (#[trigger] before[i]).name@,
                entry.name@,
            ) by {
                let last = before[place - 1];
                assert(name_not_after(last.name@, entry.name@));
                assert(name_not_after(before[i].name@, last.name@));
                order_is_transitive(
                    encode_utf8(before[i].name@),
                    encode_utf8(last.name@),
                    name,
                );
            }
            assert forall|i: int| place <= i < before.len() implies name_not_after(
                entry.name@,
                (#[trigger] before[i]).name@,
            ) by {
                order_is_total(encode_utf8(before[i].name@), name);
            }
            order_is_total(name, name);
        }
        let ghost listed = entry;
        self.entries.insert(place, entry);
        proof {
            let after = self.entries@;
            assert(after =~= before.insert(place as int, listed));
            assert forall|i: int, j: int|
                #![trigger after[i], after[j]]
                0 <= i <= j < after.len() implies name_not_after(
                after[i].name@,
                after[j].name@,
            ) by {
                let first = if i < place {
                    before[i]
                } else if i == place {
                    listed
                } else {
                    before[i - 1]
                };
                let second = if j < place {
                    before[j]
                } else if j == place {
                    listed
                } else {
                    before[j - 1]
                };
                assert(after[i] == first);
                assert(after[j] == second);
            }
        }
    }

    /// The place of the kernel with a name, if one is admitted.
    pub fn kernel_index(&self, name: &str) -> (index: Option<usize>)
        ensures
            match first_named(self.kernels(), name@) {
                Some(place) => index matches Some(found) && found == place && place
                    < self.entries@.len(),
                None => index is None,
            },
    {
        let mut index: usize = 0;
        proof {
            assert(self.kernels().take(0).len() == 0);
        }
        while index < self.entries.len()
            invariant
                index <= self.entries@.len(),
                first_named(self.kernels().take(index as int), name@) is None,
            decreases self.entries@.len() - index,
        {
            proof {
                let longer = self.kernels().take(index + 1);
                assert(longer.drop_last() =~= self.kernels().take(index as int));
                assert(longer.last() == self.kernels()[index as int]);
            }
            if same_text(self.entries[index].name.as_str(), name) {
                proof {
                    assert(first_named(self.kernels().take(index + 1), name@) == Some(
                        index as int,
                    ));
                    found_early_stays(
                        self.kernels(),
                        name@,
                        index + 1,
                        self.kernels().len() as int,
                    );
                    assert(self.kernels().take(self.kernels().len() as int) =~= self.kernels());
                }
                return Some(index);
            }
            index += 1;
        }
        assert(self.kernels().take(index as int) =~= self.kernels());
        None
    }

    /// The operation kind of the kernel with a name, if one is admitted.
    pub fn kernel_operation(&self, name: &str) -> (operation: Option<u16>)
        ensures
            match first_named(self.kernels(), name@) {
                Some(place) => operation == Some(self.kernels()[place].1),
                None => operation is None,
            },
    {
        proof {
            first_named_is_first(self.kernels(), name@);
        }
        match self.kernel_index(name) {
            Some(index) => Some(self.entries[index].operation),
            None => None,
        }
    }

    /// The kernel with a name.
    pub fn get(&self, name: &str) -> (entry: Option<&RegistryEntry<P>>)
        ensures
            match first_named(self.kernels(), name@) {
                Some(place) => entry == Some(&self.entries@[place]),
                None => entry is None,
            },
    {
        proof {
            first_named_is_first(self.kernels(), name@);
        }
        match self.kernel_index(name) {
            Some(index) => Some(&self.entries[index]),
            None => None,
        }
    }

    /// A handle for repeated dispatches to the kernel with a name.
    pub fn resolve(&self, name: &str) -> (result: Result<KernelHandle, PluginError>)
        ensures
            match first_named(self.kernels(), name@) {
                Some(place) => result matches Ok(handle) && handle.index == place && place
                    < self.entries@.len(),
                None => result matches Err(PluginError::NotFound(missing)) && missing@ == name@,
            },
    {
        match self.kernel_index(name) {
            Some(index) => Ok(KernelHandle { index }),
            None => Err(PluginError::NotFound(String::from_str(name))),
        }
    }

    /// Checks a dispatch to the kernel behind a handle: there is one, and it has
    /// the operation kind that the dispatch needs.
    fn check_kind(&self, handle: KernelHandle, expected: u16) -> (result: Result<(), PluginError>)
        ensures
            match kind_fault(self.kernels(), handle.index as int, expected) {
                Some(fault) => result is Err && dispatch_error(result->Err_0, fault),
                None => result is Ok,
            },
    {
        if handle.index >= self.entries.len() {
            let mut missing = String::new();
            push_decimal(&mut missing, handle.index as u64);
            assert(missing@ =~= decimal(handle.index as nat));
            return Err(PluginError::NotFound(missing));
        }
        let actual: u16 = self.entries[handle.index].operation;
        if actual != expected {
            return Err(PluginError::KernelKind { expected, actual });
        }
        Ok(())
    }

    /// Checks an elementwise dispatch over singles.
    pub fn check_f32(
        &self,
        handle: KernelHandle,
        input_length: usize,
        output_length: usize,
    ) -> (result: Result<(), PluginError>)
        ensures
            match kind_fault(self.kernels(), handle.index as int, OPERATION_ELEMENTWISE) {
                Some(fault) => result is Err && dispatch_error(result->Err_0, fault),
                None => if input_length != output_length {
                    result == Err::<(), _>(PluginError::BufferLength)
                } else {
                    result is Ok
                },
            },
    {
        match self.check_kind(handle, OPERATION_ELEMENTWISE) {
            Ok(()) => {},
            Err(error) => return Err(error),
        }
        if input_length != output_length {
            return Err(PluginError::BufferLength);
        }
        Ok(())
    }

    /// Checks an xor-shift-add dispatch and encodes its parameters.
    pub fn check_u64(
        &self,
        handle: KernelHandle,
        input_length: usize,
        output_length: usize,
        shift: u32,
        add: u64,
    ) -> (result: Result<[u8; 16], PluginError>)
        ensures
            match kind_fault(self.kernels(), handle.index as int, OPERATION_XOR_SHIFT_ADD) {
                Some(fault) => result is Err && dispatch_error(result->Err_0, fault),
                None => if input_length != output_length {
                    result == Err::<[u8; 16], _>(PluginError::BufferLength)
                } else {
                    result matches Ok(params) && params@ == encoded_xor_shift_add(shift, add)
                },
            },
    {
        match self.check_kind(handle, OPERATION_XOR_SHIFT_ADD) {
            Ok(()) => {},
            Err(error) => return Err(error),
        }
        if input_length != output_length {
            return Err(PluginError::BufferLength);
        }
        Ok(encode_xor_shift_add(shift, add))
    }

    /// Checks a matmul dispatch and encodes its parameters.
    pub fn check_matmul(
        &self,
        handle: KernelHandle,
        input_length: usize,
        output_length: usize,
        m: u32,
        k: u32,
        n: u32,
    ) -> (result: Result<[u8; 12], PluginError>)
        ensures
            match kind_fault(self.kernels(), handle.index as int, OPERATION_MATMUL) {
                Some(fault) => result is Err && dispatch_error(result->Err_0, fault),
                None => if input_length != m * k + k * n || output_length != m * n {
                    result == Err::<[u8; 12], _>(PluginError::BufferLength)
                } else {
                    result matches Ok(params) && params@ == encoded_matmul(m, k, n)
                },
            },
    {
        match self.check_kind(handle, OPERATION_MATMUL) {
            Ok(()) => {},
            Err(error) => return Err(error),
        }
        let (consumed, produced): (u128, u64) = matmul_lengths(m, k, n);
        if consumed != input_length as u128 || produced != output_length as u64 {
            return Err(PluginError::BufferLength);
        }
        Ok(encode_matmul(m, k, n))
    }

    /// Checks a fused matmul dispatch and encodes its parameters.
    pub fn check_matmul_act(
        &self,
        handle: KernelHandle,
        input_length: usize,
        output_length: usize,
        m: u32,
        k: u32,
        n: u32,
        activation: u32,
    ) -> (result: Result<[u8; 16], PluginError>)
        ensures
            match kind_fault(self.kernels(), handle.index as int, OPERATION_MATMUL_ACT) {
                Some(fault) => result is Err && dispatch_error(result->Err_0, fault),
                None => if input_length != m * k + k * n || output_length != m * n {
                    result == Err::<[u8; 16], _>(PluginError::BufferLength)
                } else {
                    result matches Ok(params) && params@ == encoded_matmul_act(
                        m,
                        k,
                        n,
                        activation,
                    )
                },
            },
    {
        match self.check_kind(handle, OPERATION_MATMUL_ACT) {
            Ok(()) => {},
            Err(error) => return Err(error),
        }
        let (consumed, produced): (u128, u64) = matmul_lengths(m, k, n);
        if consumed != input_length as u128 || produced != output_length as u64 {
            return Err(PluginError::BufferLength);
        }
        Ok(encode_matmul_act(m, k, n, activation))
    }

    /// What a dispatch to the kernel at `index` comes to: it is refused before
    /// the kernel where the kernel is missing, has another operation kind or
    /// takes other lengths, and leaves the output alone then; otherwise the
    /// kernel is called with the input and decides.
    pub open spec fn dispatch_outcome<D: PluginDispatch>(
        &self,
        index: int,
        expected: u16,
        lengths_fit: bool,
        plugins: D,
        call: KernelCall,
        input: Seq<u32>,
        before: Seq<u32>,
        after: Seq<u32>,
        result: Result<(), PluginError>,
    ) -> bool {
        match kind_fault(self.kernels(), index, expected) {
            Some(fault) => result is Err && dispatch_error(result->Err_0, fault) && after
                == before,
            None => if !lengths_fit {
                result == Err::<(), _>(PluginError::BufferLength) && after == before
            } else {
                match result {
                    Ok(_) => dispatch_returned(plugins, index as usize, call, input, after, None),
                    Err(error) => error matches PluginError::Dispatch(message)
                        && dispatch_returned(
                        plugins,
                        index as usize,
                        call,
                        input,
                        after,
                        Some(message),
                    ),
                }
            },
        }
    }

    /// Dispatches elementwise to the kernel behind a handle.
    pub fn run_f32_resolved<D: PluginDispatch>(
        &self,
        handle: KernelHandle,
        input: &[u32],
        output: &mut [u32],
        plugins: &D,
    ) -> (result: Result<(), PluginError>)
        ensures
            final(output)@.len() == old(output)@.len(),
            self.dispatch_outcome(
                handle.index as int,
                OPERATION_ELEMENTWISE,
                input@.len() == old(output)@.len(),
                *plugins,
                KernelCall::Elementwise,
                input@,
                old(output)@,
                final(output)@,
                result,
            ),
    {
        match self.check_f32(handle, input.len(), output.len()) {
            Ok(_) => {},
            Err(error) => return Err(error),
        }
        match plugins.run_index(handle.index, input, output) {
            Ok(()) => {
                assert(dispatch_returned(
                    *plugins,
                    handle.index,
                    KernelCall::Elementwise,
                    input@,
                    output@,
                    None,
                ));
                Ok(())
            },
            Err(message) => {
                assert(dispatch_returned(
                    *plugins,
                    handle.index,
                    KernelCall::Elementwise,
                    input@,
                    output@,
                    Some(message),
                ));
                Err(PluginError::Dispatch(message))
            },
        }
    }

    /// Dispatches elementwise to the kernel with a name.
    pub fn run_f32<D: PluginDispatch>(
        &self,
        name: &str,
        input: &[u32],
        output: &mut [u32],
        plugins: &D,
    ) -> (result: Result<(), PluginError>)
        ensures
            final(output)@.len() == old(output)@.len(),
            match first_named(self.kernels(), name@) {
                None => {
                    &&& result matches Err(PluginError::NotFound(missing)) && missing@ == name@
                    &&& final(output)@ == old(output)@
                },
                Some(place) => self.dispatch_outcome(
                    place,
                    OPERATION_ELEMENTWISE,
                    input@.len() == old(output)@.len(),
                    *plugins,
                    KernelCall::Elementwise,
                    input@,
                    old(output)@,
                    final(output)@,
                    result,
                ),
            },
    {
        match self.resolve(name) {
            Ok(handle) => self.run_f32_resolved(handle, input, output, plugins),
            Err(error) => Err(error),
        }
    }

    /// Dispatches a matmul over `A` followed by `B` to the kernel behind a handle.
    pub fn run_matmul_resolved<D: PluginDispatch>(
        &self,
        handle: KernelHandle,
        input: &[u32],
        output: &mut [u32],
        m: u32,
        k: u32,
        n: u32,
        plugins: &D,
    ) -> (result: Result<(), PluginError>)
        ensures
            final(output)@.len() == old(output)@.len(),
            self.dispatch_outcome(
                handle.index as int,
                OPERATION_MATMUL,
                input@.len() == m * k + k * n && old(output)@.len() == m * n,
                *plugins,
                (KernelCall::Matmul { m, k, n }),
                input@,
                old(output)@,
                final(output)@,
                result,
            ),
    {
        match self.check_matmul(handle, input.len(), output.len(), m, k, n) {
            Ok(_) => {},
            Err(error) => return Err(error),
        }
        match plugins.run_matmul_index(handle.index, m, k, n, input, output) {
            Ok(()) => {
                assert(dispatch_returned(
                    *plugins,
                    handle.index,
                    (KernelCall::Matmul { m, k, n }),
                    input@,
                    output@,
                    None,
                ));
                Ok(())
            },
            Err(message) => {
                assert(dispatch_returned(
                    *plugins,
                    handle.index,
                    (KernelCall::Matmul { m, k, n }),
                    input@,
                    output@,
                    Some(message),
                ));
                Err(PluginError::Dispatch(message))
            },
        }
    }

    /// Dispatches a matmul over `A` followed by `B` to the kernel with a name.
    pub fn run_matmul<D: PluginDispatch>(
        &self,
        name: &str,
        input: &[u32],
        output: &mut [u32],
        m: u32,
        k: u32,
        n: u32,
        plugins: &D,
    ) -> (result: Result<(), PluginError>)
        ensures
            final(output)@.len() == old(output)@.len(),
            match first_named(self.kernels(), name@) {
                None => {
                    &&& result matches Err(PluginError::NotFound(missing)) && missing@ == name@
                    &&& final(output)@ == old(output)@
                },
                Some(place) => self.dispatch_outcome(
                    place,
                    OPERATION_MATMUL,
                    input@.len() == m * k + k * n && old(output)@.len() == m * n,
                    *plugins,
                    (KernelCall::Matmul { m, k, n }),
                    input@,
                    old(output)@,
                    final(output)@,
                    result,
                ),
            },
    {
        match self.resolve(name) {
            Ok(handle) => self.run_matmul_resolved(handle, input, output, m, k, n, plugins),
            Err(error) => Err(error),
        }
    }

    /// Dispatches a fused matmul over `A` followed by `B` to the kernel behind a
    /// handle.
    pub fn run_matmul_act_resolved<D: PluginDispatch>(
        &self,
        handle: KernelHandle,
        input: &[u32],
        output: &mut [u32],
        m: u32,
        k: u32,
        n: u32,
        activation: u32,
        plugins: &D,
    ) -> (result: Result<(), PluginError>)
        ensures
            final(output)@.len() == old(output)@.len(),
            self.dispatch_outcome(
                handle.index as int,
                OPERATION_MATMUL_ACT,
                input@.len() == m * k + k * n && old(output)@.len() == m * n,
                *plugins,
                (KernelCall::MatmulAct { m, k, n, activation }),
                input@,
                old(output)@,
                final(output)@,
                result,
            ),
    {
        match self.check_matmul_act(handle, input.len(), output.len(), m, k, n, activation) {
            Ok(_) => {},
            Err(error) => return Err(error),
        }
        match plugins.run_matmul_act_index(handle.index, m, k, n, activation, input, output) {
            Ok(()) => {
                assert(dispatch_returned(
                    *plugins,
                    handle.index,
                    (KernelCall::MatmulAct { m, k, n, activation }),
                    input@,
                    output@,
                    None,
                ));
                Ok(())
            },
            Err(message) => {
                assert(dispatch_returned(
                    *plugins,
                    handle.index,
                    (KernelCall::MatmulAct { m, k, n, activation }),
                    input@,
                    output@,
                    Some(message),
                ));
                Err(PluginError::Dispatch(message))
            },
        }
    }

    /// Dispatches a fused matmul over `A` followed by `B` to the kernel with a name.
    pub fn run_matmul_act<D: PluginDispatch>(
        &self,
        name: &str,
        input: &[u32],
        output: &mut [u32],
        m: u32,
        k: u32,
        n: u32,
        activation: u32,
        plugins: &D,
    ) -> (result: Result<(), PluginError>)
        ensures
            final(output)@.len() == old(output)@.len(),
            match first_named(self.kernels(), name@) {
                None => {
                    &&& result matches Err(PluginError::NotFound(missing)) && missing@ == name@
                    &&& final(output)@ == old(output)@
                },
                Some(place) => self.dispatch_outcome(
                    place,
                    OPERATION_MATMUL_ACT,
                    input@.len() == m * k + k * n && old(output)@.len() == m * n,
                    *plugins,
                    (KernelCall::MatmulAct { m, k, n, activation }),
                    input@,
                    old(output)@,
                    final(output)@,
                    result,
                ),
            },
    {
        match self.resolve(name) {
            Ok(handle) => self.run_matmul_act_resolved(
                handle,
                input,
                output,
                m,
                k,
                n,
                activation,
                plugins,
            ),
            Err(error) => Err(error),
        }
    }

    /// Dispatches elementwise to the kernel with a name.
    pub fn run_into<D: PluginDispatch>(
        &self,
        name: &str,
        input: &[u32],
        output: &mut [u32],
        plugins: &D,
    ) -> (result: Result<(), PluginError>)
        ensures
            final(output)@.len() == old(output)@.len(),
            match first_named(self.kernels(), name@) {
                None => {
                    &&& result matches Err(PluginError::NotFound(missing)) && missing@ == name@
                    &&& final(output)@ == old(output)@
                },
                Some(place) => self.dispatch_outcome(
                    place,
                    OPERATION_ELEMENTWISE,
                    input@.len() == old(output)@.len(),
                    *plugins,
                    KernelCall::Elementwise,
                    input@,
                    old(output)@,
                    final(output)@,
                    result,
                ),
            },
    {
        self.run_f32(name, input, output, plugins)
    }

    /// Dispatches elementwise to the kernel at an index.
    pub fn run_index<D: PluginDispatch>(
        &self,
        index: usize,
        input: &[u32],
        output: &mut [u32],
        plugins: &D,
    ) -> (result: Result<(), PluginError>)
        ensures
            final(output)@.len() == old(output)@.len(),
            self.dispatch_outcome(
                index as int,
                OPERATION_ELEMENTWISE,
                input@.len() == old(output)@.len(),
                *plugins,
                KernelCall::Elementwise,
                input@,
                old(output)@,
                final(output)@,
                result,
            ),
    {
        self.run_f32_resolved(KernelHandle { index }, input, output, plugins)
    }
}

/// An entry that is found in a front of the list is found in the list.
proof fn found_early_stays(
    listing: Seq<(Seq<char>, u16)>,
    name: Seq<char>,
    early: int,
    late: int,
)
    requires
        0 <= early <= late <= listing.len(),
        first_named(listing.take(early), name) is Some,
    ensures
        first_named(listing.take(late), name) == first_named(listing.take(early), name),
    decreases late,
{
    if early < late {
        found_early_stays(listing, name, early, late - 1);
        assert(listing.take(late).drop_last() =~= listing.take(late - 1));
    }
}

/// What keeps a dispatch from reaching a kernel on account of the kernel.
pub enum KindFault {
    Missing(int),
    Kind { expected: u16, actual: u16 },
}

/// Why a dispatch that needs the operation kind `expected` does not reach the
/// kernel at `index`, if it does not.
pub open spec fn kind_fault(kernels: Seq<(Seq<char>, u16)>, index: int, expected: u16) -> Option<
    KindFault,
> {
    if index >= kernels.len() {
        Some(KindFault::Missing(index))
    } else if kernels[index].1 != expected {
        Some(KindFault::Kind { expected, actual: kernels[index].1 })
    } else {
        None
    }
}

/// The error that reports a fault.
pub open spec fn dispatch_error(error: PluginError, fault: KindFault) -> bool {
    match fault {
        KindFault::Missing(index) => error matches PluginError::NotFound(text) && text@ == decimal(
            index as nat,
        ),
        KindFault::Kind { expected, actual } => error == (PluginError::KernelKind {
            expected,
            actual,
        }),
    }
}

/// The parameters of an xor-shift-add call.
pub open spec fn encoded_xor_shift_add(shift: u32, add: u64) -> Seq<u8> {
    u32_bytes(shift) + u32_bytes(0) + u64_bytes(add)
}

/// The parameters of a matmul call.
pub open spec fn encoded_matmul(m: u32, k: u32, n: u32) -> Seq<u8> {
    u32_bytes(m) + u32_bytes(k) + u32_bytes(n)
}

/// The parameters of a fused matmul call.
pub open spec fn encoded_matmul_act(m: u32, k: u32, n: u32, activation: u32) -> Seq<u8> {
    u32_bytes(m) + u32_bytes(k) + u32_bytes(n) + u32_bytes(activation)
}

/// The parameters of an xor-shift-add call.
fn encode_xor_shift_add(shift: u32, add: u64) -> (params: [u8; 16])
    ensures
        params@ == encoded_xor_shift_add(shift, add),
{
    let a: [u8; 4] = bytes_of_u32(shift);
    let b: [u8; 4] = bytes_of_u32((add % 0x1_0000_0000) as u32);
    let c: [u8; 4] = bytes_of_u32((add / 0x1_0000_0000) as u32);
    let params: [u8; 16] = [
        a[0],
        a[1],
        a[2],
        a[3],
        0,
        0,
        0,
        0,
        b[0],
        b[1],
        b[2],
        b[3],
        c[0],
        c[1],
        c[2],
        c[3],
    ];
    assert(params@ =~= encoded_xor_shift_add(shift, add));
    params
}

/// The parameters of a matmul call.
fn encode_matmul(m: u32, k: u32, n: u32) -> (params: [u8; 12])
    ensures
        params@ == encoded_matmul(m, k, n),
{
    let a: [u8; 4] = bytes_of_u32(m);
    let b: [u8; 4] = bytes_of_u32(k);
    let c: [u8; 4] = bytes_of_u32(n);
    let params: [u8; 12] = [
        a[0],
        a[1],
        a[2],
        a[3],
        b[0],
        b[1],
        b[2],
        b[3],
        c[0],
        c[1],
        c[2],
        c[3],
    ];
    assert(params@ =~= encoded_matmul(m, k, n));
    params
}

/// The parameters of a fused matmul call.
fn encode_matmul_act(m: u32, k: u32, n: u32, activation: u32) -> (params: [u8; 16])
    ensures
        params@ == encoded_matmul_act(m, k, n, activation),
{
    let a: [u8; 4] = bytes_of_u32(m);
    let b: [u8; 4] = bytes_of_u32(k);
    let c: [u8; 4] = bytes_of_u32(n);
    let d: [u8; 4] = bytes_of_u32(activation);
    let params: [u8; 16] = [
        a[0],
        a[1],
        a[2],
        a[3],
        b[0],
        b[1],
        b[2],
        b[3],
        c[0],
        c[1],
        c[2],
        c[3],
        d[0],
        d[1],
        d[2],
        d[3],
    ];
    assert(params@ =~= encoded_matmul_act(m, k, n, activation));
    params
}

/// An xor-shift-add kernel reads the parameters that a dispatch encodes.
pub proof fn xor_shift_add_params_arrive(shift: u32, add: u64)
    ensures
        encoded_xor_shift_add(shift, add).len() == 16,
        u32_at(encoded_xor_shift_add(shift, add), 0) == shift,
        u32_at(encoded_xor_shift_add(shift, add), 4) == 0,
        u64_at(encoded_xor_shift_add(shift, add), 8) == add,
{
    let params = encoded_xor_shift_add(shift, add);
    assert(params.subrange(0, 4) =~= u32_bytes(shift));
    assert(params.subrange(4, 8) =~= u32_bytes(0));
    assert(params.subrange(8, 16) =~= u64_bytes(add));
    u32_round_trip(params, 0, shift);
    u32_round_trip(params, 4, 0);
    u64_round_trip(params, 8, add);
}

/// A matmul kernel reads the parameters that a dispatch encodes.
pub proof fn matmul_params_arrive(m: u32, k: u32, n: u32)
    ensures
        encoded_matmul(m, k, n).len() == 12,
        matmul_params(encoded_matmul(m, k, n), false) == (MatmulParams { m, k, n, activation: 0 }),
{
    let params = encoded_matmul(m, k, n);
    assert(params.subrange(0, 4) =~= u32_bytes(m));
    assert(params.subrange(4, 8) =~= u32_bytes(k));
    assert(params.subrange(8, 12) =~= u32_bytes(n));
    u32_round_trip(params, 0, m);
    u32_round_trip(params, 4, k);
    u32_round_trip(params, 8, n);
}

/// A fused matmul kernel reads the parameters that a dispatch encodes.
pub proof fn matmul_act_params_arrive(m: u32, k: u32, n: u32, activation: u32)
    ensures
        encoded_matmul_act(m, k, n, activation).len() == 16,
        matmul_params(encoded_matmul_act(m, k, n, activation), true) == (MatmulParams {
            m,
            k,
            n,
            activation,
        }),
{
    let params = encoded_matmul_act(m, k, n, activation);
    assert(params.subrange(0, 4) =~= u32_bytes(m));
    assert(params.subrange(4, 8) =~= u32_bytes(k));
    assert(params.subrange(8, 12) =~= u32_bytes(n));
    assert(params.subrange(12, 16) =~= u32_bytes(activation));
    u32_round_trip(params, 0, m);
    u32_round_trip(params, 4, k);
    u32_round_trip(params, 8, n);
    u32_round_trip(params, 12, activation);
}

/// Those of `candidates` that are admitted, in their order.
pub open spec fn installed(kernels: Seq<(Seq<char>, u16)>, candidates: Seq<String>) -> Seq<Seq<char>>
    decreases candidates.len(),
{
    if candidates.len() == 0 {
        Seq::empty()
    } else {
        let front = installed(kernels, candidates.drop_last());
        if first_named(kernels, candidates.last()@) is Some {
            front.push(candidates.last()@)
        } else {
            front
        }
    }
}

/// Those of `candidates` that are admitted, in their order.
pub fn installed_kernels<P>(registry: &PluginRegistry<P>, candidates: &Vec<String>) -> (names: Vec<
    String,
>)
    ensures
        names@.map_values(|name: String| name@) == installed(registry.kernels(), candidates@),
{
    let mut names: Vec<String> = Vec::new();
    let mut index: usize = 0;
    assert(names@.map_values(|name: String| name@) =~= installed(
        registry.kernels(),
        candidates@.take(0),
    ));
    while index < candidates.len()
        invariant
            index <= candidates@.len(),
            names@.map_values(|name: String| name@) == installed(
                registry.kernels(),
                candidates@.take(index as int),
            ),
        decreases candidates@.len() - index,
    {
        let ghost before = names@;
        if registry.kernel_index(candidates[index].as_str()).is_some() {
            names.push(candidates[index].clone());
        }
        index += 1;
        proof {
            let longer = candidates@.take(index as int);
            assert(longer.drop_last() =~= candidates@.take(index - 1));
            assert(longer.last() == candidates@[index - 1]);
            assert(names@.map_values(|name: String| name@) =~= installed(
                registry.kernels(),
                longer,
            ));
        }
    }
    assert(candidates@.take(index as int) =~= candidates@);
    names
}

} // verus!
