//! File-system view kept on the network: directory listings, their
//! metadata, files, and the read-only blob wrapper.
//!
//! Timestamps are plain seconds since the Unix epoch; a directory's
//! identifier is a fresh random name.  Listings serialise in the crate's
//! canonical chunk encoding so they can travel as record payloads.

use vstd::prelude::*;
use vstd::string::StringSliceAdditionalSpecFns;
use vstd::utf8::{decode_utf8, valid_utf8};
use crate::codec::{
    chunk_spec, copy_bytes, list_spec, read_chunk, read_chunk_spec, read_list, read_list_spec,
    read_u64, write_chunk, write_list, write_u64,
};
use crate::crypto::random_bytes;
use crate::name::{Name, NAME_BYTES};
use vstd::bytes::spec_u64_to_le_bytes;

verus! {

/// Relies on std::time::SystemTime::now: the current time, read as whole
/// seconds since the Unix epoch.
#[verifier::external_body]
fn now_seconds() -> (r: u64) {
    match std::time::SystemTime::now().duration_since(std::time::UNIX_EPOCH) {
        Ok(d) => d.as_secs(),
        Err(_) => 0,
    }
}

/// Relies on String::from_utf8: accepts exactly the valid UTF-8 byte
/// strings and decodes them to their scalar values.
#[verifier::external_body]
fn string_from_utf8(v: Vec<u8>) -> (r: Option<String>)
    ensures
        r is Some <==> valid_utf8(v@),
        r matches Some(s) ==> s@ == decode_utf8(v@),
{
    match String::from_utf8(v) {
        Ok(s) => Some(s),
        Err(_) => None,
    }
}

/// Mathematical model of metadata.
pub ghost struct MetadataV {
    pub name: Seq<char>,
    pub user_metadata: Option<Seq<u8>>,
    pub created_time: u64,
    pub modified_time: u64,
    pub size: u64,
}

/// Name, creation and modification times, size and free-form user bytes of
/// a directory or file.
#[derive(PartialEq, Eq, Debug)]
pub struct Metadata {
    name: String,
    user_metadata: Option<Vec<u8>>,
    created_time: u64,
    modified_time: u64,
    size: u64,
}

impl View for Metadata {
    type V = MetadataV;

    closed spec fn view(&self) -> MetadataV {
        MetadataV {
            name: self.name@,
            user_metadata: match self.user_metadata {
                Some(b) => Some(b@),
                None => None,
            },
            created_time: self.created_time,
            modified_time: self.modified_time,
            size: self.size,
        }
    }
}

impl Metadata {
    /// Fresh metadata: both timestamps read the clock once, the size is
    /// zero.
    pub fn new(name: String, user_metadata: Vec<u8>) -> (r: Metadata)
        ensures
            r@.name == name@,
            r@.user_metadata == Some(user_metadata@),
            r@.created_time == r@.modified_time,
            r@.size == 0,
    {
        let now = now_seconds();
        Metadata {
            name,
            user_metadata: Some(user_metadata),
            created_time: now,
            modified_time: now,
            size: 0,
        }
    }

    pub fn get_name(&self) -> (r: String)
        ensures
            r@ == self@.name,
    {
        self.name.clone()
    }

    pub fn set_name(&mut self, name: String)
        ensures
            final(self)@ == (MetadataV { name: name@, ..old(self)@ }),
    {
        self.name = name;
    }

    pub fn get_user_metadata(&self) -> (r: Option<Vec<u8>>)
        ensures
            (match r {
                Some(b) => self@.user_metadata == Some(b@),
                None => self@.user_metadata is None,
            }),
    {
        match &self.user_metadata {
            Some(b) => Some(copy_bytes(b)),
            None => None,
        }
    }

    pub fn set_user_metadata(&mut self, user_metadata: Vec<u8>)
        ensures
            final(self)@ == (MetadataV { user_metadata: Some(user_metadata@), ..old(self)@ }),
    {
        self.user_metadata = Some(user_metadata);
    }

    pub fn get_created_time(&self) -> (r: u64)
        ensures
            r == self@.created_time,
    {
        self.created_time
    }

    pub fn get_modified_time(&self) -> (r: u64)
        ensures
            r == self@.modified_time,
    {
        self.modified_time
    }

    pub fn get_size(&self) -> (r: u64)
        ensures
            r == self@.size,
    {
        self.size
    }

    pub fn set_size(&mut self, size: u64)
        ensures
            final(self)@ == (MetadataV { size: size, ..old(self)@ }),
    {
        self.size = size;
    }
}

impl Clone for Metadata {
    fn clone(&self) -> (r: Self)
        ensures
            r@ == self@,
    {
        let user_metadata = match &self.user_metadata {
            Some(b) => Some(copy_bytes(b)),
            None => None,
        };
        Metadata {
            name: self.name.clone(),
            user_metadata,
            created_time: self.created_time,
            modified_time: self.modified_time,
            size: self.size,
        }
    }
}

/// Serial form of metadata: the UTF-8 name as a chunk, a presence flag and
/// chunk for the user bytes, then the two timestamps and the size.
pub open spec fn metadata_bytes_spec(m: MetadataV) -> Seq<u8> {
    chunk_spec(vstd::utf8::encode_utf8(m.name)) + (match m.user_metadata {
        None => spec_u64_to_le_bytes(0),
        Some(b) => spec_u64_to_le_bytes(1) + chunk_spec(b),
    }) + spec_u64_to_le_bytes(m.created_time) + spec_u64_to_le_bytes(m.modified_time)
        + spec_u64_to_le_bytes(m.size)
}

/// Parsing metadata from a whole buffer, nothing before or after.
pub open spec fn decode_metadata_spec(data: Seq<u8>) -> Option<MetadataV> {
    match read_chunk_spec(data, 0) {
        None => None,
        Some((name_bytes, p1)) => if !valid_utf8(name_bytes) {
            None
        } else {
            match crate::codec::read_u64_spec(data, p1) {
                None => None,
                Some((flag, p2)) => {
                    let um = if flag == 0 {
                        Some((None::<Seq<u8>>, p2))
                    } else if flag == 1 {
                        match read_chunk_spec(data, p2) {
                            None => None,
                            Some((b, p3)) => Some((Some(b), p3)),
                        }
                    } else {
                        None
                    };
                    match um {
                        None => None,
                        Some((user_metadata, p3)) => match crate::codec::read_u64_spec(data, p3) {
                            None => None,
                            Some((created_time, p4)) => match crate::codec::read_u64_spec(
                                data,
                                p4,
                            ) {
                                None => None,
                                Some((modified_time, p5)) => match crate::codec::read_u64_spec(
                                    data,
                                    p5,
                                ) {
                                    None => None,
                                    Some((size, p6)) => if p6 == data.len() {
                                        Some(
                                            MetadataV {
                                                name: decode_utf8(name_bytes),
                                                user_metadata,
                                                created_time,
                                                modified_time,
                                                size,
                                            },
                                        )
                                    } else {
                                        None
                                    },
                                },
                            },
                        },
                    }
                },
            }
        },
    }
}

/// Serialises metadata, as `metadata_bytes_spec` describes.
pub fn encode_metadata(m: &Metadata) -> (r: Vec<u8>)
    ensures
        r@ == metadata_bytes_spec(m@),
{
    let mut out: Vec<u8> = Vec::new();
    write_chunk(&mut out, m.name.as_str().as_bytes());
    match &m.user_metadata {
        None => write_u64(&mut out, 0),
        Some(b) => {
            write_u64(&mut out, 1);
            write_chunk(&mut out, b.as_slice());
        },
    }
    write_u64(&mut out, m.created_time);
    write_u64(&mut out, m.modified_time);
    write_u64(&mut out, m.size);
    proof {
        assert(out@ =~= metadata_bytes_spec(m@));
    }
    out
}

/// Parses metadata, as `decode_metadata_spec` describes.
pub fn decode_metadata(data: &[u8]) -> (r: Option<Metadata>)
    ensures
        (match r {
            Some(m) => decode_metadata_spec(data@) == Some(m@),
            None => decode_metadata_spec(data@) is None,
        }),
{
    let (name_bytes, p1) = match read_chunk(data, 0) {
        Some(x) => x,
        None => {
            return None;
        },
    };
    let name = match string_from_utf8(name_bytes) {
        Some(s) => s,
        None => {
            return None;
        },
    };
    let (flag, p2) = match read_u64(data, p1) {
        Some(x) => x,
        None => {
            return None;
        },
    };
    let (user_metadata, p3): (Option<Vec<u8>>, usize) = if flag == 0 {
        (None, p2)
    } else if flag == 1 {
        match read_chunk(data, p2) {
            Some((b, p)) => (Some(b), p),
            None => {
                return None;
            },
        }
    } else {
        return None;
    };
    let (created_time, p4) = match read_u64(data, p3) {
        Some(x) => x,
        None => {
            return None;
        },
    };
    let (modified_time, p5) = match read_u64(data, p4) {
        Some(x) => x,
        None => {
            return None;
        },
    };
    let (size, p6) = match read_u64(data, p5) {
        Some(x) => x,
        None => {
            return None;
        },
    };
    if p6 != data.len() {
        return None;
    }
    Some(Metadata { name, user_metadata, created_time, modified_time, size })
}

/// Mathematical model of a file.
pub ghost struct FileV {
    pub metadata: MetadataV,
    pub datamap: Seq<u8>,
}

/// A file entry: its metadata and the serialised data map that locates its
/// chunked, self-encrypted content.
#[derive(PartialEq, Eq, Debug)]
pub struct File {
    metadata: Metadata,
    datamap: Vec<u8>,
}

impl View for File {
    type V = FileV;

    closed spec fn view(&self) -> FileV {
        FileV { metadata: self.metadata@, datamap: self.datamap@ }
    }
}

impl File {
    pub fn new(metadata: Metadata, datamap: Vec<u8>) -> (r: File)
        ensures
            r@ == (FileV { metadata: metadata@, datamap: datamap@ }),
    {
        File { metadata, datamap }
    }

    pub fn get_metadata(&self) -> (r: &Metadata)
        ensures
            r@ == self@.metadata,
    {
        &self.metadata
    }

    pub fn get_datamap(&self) -> (r: &Vec<u8>)
        ensures
            r@ == self@.datamap,
    {
        &self.datamap
    }
}

impl Clone for File {
    fn clone(&self) -> (r: Self)
        ensures
            r@ == self@,
    {
        File { metadata: self.metadata.clone(), datamap: copy_bytes(&self.datamap) }
    }
}

/// Serial form of a file: its metadata and its data map, each as a chunk.
pub open spec fn file_bytes_spec(f: FileV) -> Seq<u8> {
    chunk_spec(metadata_bytes_spec(f.metadata)) + chunk_spec(f.datamap)
}

/// Parsing a file from a whole buffer.
pub open spec fn decode_file_spec(data: Seq<u8>) -> Option<FileV> {
    match read_chunk_spec(data, 0) {
        None => None,
        Some((mb, p1)) => match decode_metadata_spec(mb) {
            None => None,
            Some(metadata) => match read_chunk_spec(data, p1) {
                None => None,
                Some((datamap, p2)) => if p2 == data.len() {
                    Some(FileV { metadata, datamap })
                } else {
                    None
                },
            },
        },
    }
}

/// Serialises a file, as `file_bytes_spec` describes.
pub fn encode_file(f: &File) -> (r: Vec<u8>)
    ensures
        r@ == file_bytes_spec(f@),
{
    let mut out: Vec<u8> = Vec::new();
    let mb = encode_metadata(&f.metadata);
    write_chunk(&mut out, mb.as_slice());
    write_chunk(&mut out, f.datamap.as_slice());
    proof {
        assert(out@ =~= file_bytes_spec(f@));
    }
    out
}

/// Parses a file, as `decode_file_spec` describes.
pub fn decode_file(data: &[u8]) -> (r: Option<File>)
    ensures
        (match r {
            Some(f) => decode_file_spec(data@) == Some(f@),
            None => decode_file_spec(data@) is None,
        }),
{
    let (mb, p1) = match read_chunk(data, 0) {
        Some(x) => x,
        None => {
            return None;
        },
    };
    let metadata = match decode_metadata(mb.as_slice()) {
        Some(m) => m,
        None => {
            return None;
        },
    };
    let (datamap, p2) = match read_chunk(data, p1) {
        Some(x) => x,
        None => {
            return None;
        },
    };
    if p2 != data.len() {
        return None;
    }
    Some(File { metadata, datamap })
}

/// Mathematical model of a directory's identity card.
pub ghost struct DirectoryInfoV {
    pub id: Seq<u8>,
    pub parent_dir_id: Seq<u8>,
    pub metadata: MetadataV,
}

/// A directory's identity: its own fresh name, its parent's name, and its
/// metadata.
#[derive(PartialEq, Eq, Debug)]
pub struct DirectoryInfo {
    id: Name,
    parent_dir_id: Name,
    metadata: Metadata,
}

impl View for DirectoryInfo {
    type V = DirectoryInfoV;

    closed spec fn view(&self) -> DirectoryInfoV {
        DirectoryInfoV { id: self.id@, parent_dir_id: self.parent_dir_id@, metadata: self.metadata@ }
    }
}

impl DirectoryInfo {
    /// A fresh directory identity under `parent_dir_id`; the id is drawn at
    /// random.
    pub fn new(parent_dir_id: Name, metadata: Metadata) -> (r: DirectoryInfo)
        ensures
            r@.parent_dir_id == parent_dir_id@,
            r@.metadata == metadata@,
            r@.id.len() == NAME_BYTES,
    {
        let id = Name::from_bytes(random_bytes(NAME_BYTES));
        DirectoryInfo { id, parent_dir_id, metadata }
    }

    pub fn get_id(&self) -> (r: &Name)
        ensures
            r@ == self@.id,
    {
        &self.id
    }

    pub fn get_parent_dir_id(&self) -> (r: &Name)
        ensures
            r@ == self@.parent_dir_id,
    {
        &self.parent_dir_id
    }

    pub fn get_metadata(&self) -> (r: &Metadata)
        ensures
            r@ == self@.metadata,
    {
        &self.metadata
    }

    pub fn get_mut_metadata(&mut self) -> (r: &mut Metadata)
        ensures
            (*r)@ == old(self)@.metadata,
            final(self)@ == (DirectoryInfoV { metadata: (*final(r))@, ..old(self)@ }),
    {
        &mut self.metadata
    }

    pub fn set_metadata(&mut self, metadata: Metadata)
        ensures
            final(self)@ == (DirectoryInfoV { metadata: metadata@, ..old(self)@ }),
    {
        self.metadata = metadata;
    }
}

impl Clone for DirectoryInfo {
    fn clone(&self) -> (r: Self)
        ensures
            r@ == self@,
    {
        DirectoryInfo {
            id: self.id.clone(),
            parent_dir_id: self.parent_dir_id.clone(),
            metadata: self.metadata.clone(),
        }
    }
}

/// Serial form of a directory identity: id, parent id, metadata, each as a
/// chunk.
pub open spec fn dir_info_bytes_spec(d: DirectoryInfoV) -> Seq<u8> {
    chunk_spec(d.id) + chunk_spec(d.parent_dir_id) + chunk_spec(metadata_bytes_spec(d.metadata))
}

/// Parsing a directory identity from a whole buffer.
pub open spec fn decode_dir_info_spec(data: Seq<u8>) -> Option<DirectoryInfoV> {
    match read_chunk_spec(data, 0) {
        None => None,
        Some((id, p1)) => match read_chunk_spec(data, p1) {
            None => None,
            Some((parent, p2)) => match read_chunk_spec(data, p2) {
                None => None,
                Some((mb, p3)) => match decode_metadata_spec(mb) {
                    None => None,
                    Some(metadata) => if p3 == data.len() && id.len() == NAME_BYTES
                        && parent.len() == NAME_BYTES {
                        Some(DirectoryInfoV { id, parent_dir_id: parent, metadata })
                    } else {
                        None
                    },
                },
            },
        },
    }
}

/// Serialises a directory identity, as `dir_info_bytes_spec` describes.
pub fn encode_dir_info(d: &DirectoryInfo) -> (r: Vec<u8>)
    ensures
        r@ == dir_info_bytes_spec(d@),
{
    let mut out: Vec<u8> = Vec::new();
    write_chunk(&mut out, d.id.as_bytes().as_slice());
    write_chunk(&mut out, d.parent_dir_id.as_bytes().as_slice());
    let mb = encode_metadata(&d.metadata);
    write_chunk(&mut out, mb.as_slice());
    proof {
        assert(out@ =~= dir_info_bytes_spec(d@));
    }
    out
}

/// Parses a directory identity, as `decode_dir_info_spec` describes.
pub fn decode_dir_info(data: &[u8]) -> (r: Option<DirectoryInfo>)
    ensures
        (match r {
            Some(d) => decode_dir_info_spec(data@) == Some(d@),
            None => decode_dir_info_spec(data@) is None,
        }),
{
    let (id_bytes, p1) = match read_chunk(data, 0) {
        Some(x) => x,
        None => {
            return None;
        },
    };
    let (parent_bytes, p2) = match read_chunk(data, p1) {
        Some(x) => x,
        None => {
            return None;
        },
    };
    let (mb, p3) = match read_chunk(data, p2) {
        Some(x) => x,
        None => {
            return None;
        },
    };
    let metadata = match decode_metadata(mb.as_slice()) {
        Some(m) => m,
        None => {
            return None;
        },
    };
    if p3 != data.len() || id_bytes.len() != NAME_BYTES || parent_bytes.len() != NAME_BYTES {
        return None;
    }
    Some(DirectoryInfo {
        id: Name::from_bytes(id_bytes),
        parent_dir_id: Name::from_bytes(parent_bytes),
        metadata,
    })
}

/// The views of a sequence of files.
pub open spec fn file_views(s: Seq<File>) -> Seq<FileV> {
    s.map_values(|f: File| f@)
}

/// The views of a sequence of directory identities.
pub open spec fn dir_info_views(s: Seq<DirectoryInfo>) -> Seq<DirectoryInfoV> {
    s.map_values(|d: DirectoryInfo| d@)
}

/// Mathematical model of a directory listing.
pub ghost struct DirectoryListingV {
    pub info: DirectoryInfoV,
    pub sub_directories: Seq<DirectoryInfoV>,
    pub files: Seq<FileV>,
}

/// A directory listing: the directory's identity, its sub-directories and
/// its files.
#[derive(PartialEq, Eq, Debug)]
pub struct DirectoryListing {
    info: DirectoryInfo,
    sub_directories: Vec<DirectoryInfo>,
    files: Vec<File>,
}

impl View for DirectoryListing {
    type V = DirectoryListingV;

    closed spec fn view(&self) -> DirectoryListingV {
        DirectoryListingV {
            info: self.info@,
            sub_directories: dir_info_views(self.sub_directories@),
            files: file_views(self.files@),
        }
    }
}

impl DirectoryListing {
    /// An empty listing under `parent_dir_id` with fresh metadata.
    pub fn new(parent_dir_id: Name, name: String, user_metadata: Vec<u8>) -> (r: DirectoryListing)
        ensures
            r@.info.parent_dir_id == parent_dir_id@,
            r@.info.metadata.name == name@,
            r@.info.metadata.user_metadata == Some(user_metadata@),
            r@.info.metadata.created_time == r@.info.metadata.modified_time,
            r@.info.metadata.size == 0,
            r@.info.id.len() == NAME_BYTES,
            r@.sub_directories.len() == 0,
            r@.files.len() == 0,
    {
        let r = DirectoryListing {
            info: DirectoryInfo::new(parent_dir_id, Metadata::new(name, user_metadata)),
            sub_directories: Vec::new(),
            files: Vec::new(),
        };
        proof {
            assert(r@.sub_directories =~= Seq::<DirectoryInfoV>::empty());
            assert(r@.files =~= Seq::<FileV>::empty());
        }
        r
    }

    pub fn get_info(&self) -> (r: DirectoryInfo)
        ensures
            r@ == self@.info,
    {
        self.info.clone()
    }

    pub fn get_mut_metadata(&mut self) -> (r: &mut Metadata)
        ensures
            (*r)@ == old(self)@.info.metadata,
            final(self)@ == (DirectoryListingV {
                info: DirectoryInfoV { metadata: (*final(r))@, ..old(self)@.info },
                ..old(self)@
            }),
    {
        self.info.get_mut_metadata()
    }

    pub fn get_metadata(&self) -> (r: &Metadata)
        ensures
            r@ == self@.info.metadata,
    {
        self.info.get_metadata()
    }

    pub fn set_metadata(&mut self, metadata: Metadata)
        ensures
            final(self)@ == (DirectoryListingV {
                info: DirectoryInfoV { metadata: metadata@, ..old(self)@.info },
                ..old(self)@
            }),
    {
        self.info.set_metadata(metadata);
    }

    pub fn get_user_metadata(&self) -> (r: Option<Vec<u8>>)
        ensures
            (match r {
                Some(b) => self@.info.metadata.user_metadata == Some(b@),
                None => self@.info.metadata.user_metadata is None,
            }),
    {
        self.info.get_metadata().get_user_metadata()
    }

    pub fn set_user_metadata(&mut self, user_metadata: Vec<u8>)
        ensures
            final(self)@ == (DirectoryListingV {
                info: DirectoryInfoV {
                    metadata: MetadataV {
                        user_metadata: Some(user_metadata@),
                        ..old(self)@.info.metadata
                    },
                    ..old(self)@.info
                },
                ..old(self)@
            }),
    {
        self.info.get_mut_metadata().set_user_metadata(user_metadata);
    }

    pub fn get_parent_dir_id(&self) -> (r: Name)
        ensures
            r@ == self@.info.parent_dir_id,
    {
        self.info.get_parent_dir_id().clone()
    }

    pub fn add_file(&mut self, file: File)
        ensures
            final(self)@ == (DirectoryListingV {
                files: old(self)@.files.push(file@),
                ..old(self)@
            }),
    {
        let ghost fv = file@;
        let ghost pre = self@.files;
        self.files.push(file);
        proof {
            assert(self@.files =~= pre.push(fv));
        }
    }

    pub fn get_files(&self) -> (r: Vec<File>)
        ensures
            file_views(r@) == self@.files,
    {
        let mut r: Vec<File> = Vec::new();
        for i in 0..self.files.len()
            invariant
                file_views(r@) =~= file_views(self.files@).take(i as int),
        {
            let ghost pre = r@;
            r.push(self.files[i].clone());
            proof {
                assert(file_views(r@) =~= file_views(pre).push(self.files@[i as int]@));
                assert(file_views(self.files@).take(i + 1).drop_last() =~= file_views(
                    self.files@,
                ).take(i as int));
                assert(file_views(r@) =~= file_views(self.files@).take(i + 1));
            }
        }
        proof {
            assert(file_views(self.files@).take(self.files@.len() as int) =~= file_views(
                self.files@,
            ));
        }
        r
    }

    pub fn set_files(&mut self, files: Vec<File>)
        ensures
            final(self)@ == (DirectoryListingV { files: file_views(files@), ..old(self)@ }),
    {
        self.files = files;
    }

    pub fn get_sub_directories(&self) -> (r: Vec<DirectoryInfo>)
        ensures
            dir_info_views(r@) == self@.sub_directories,
    {
        let mut r: Vec<DirectoryInfo> = Vec::new();
        for i in 0..self.sub_directories.len()
            invariant
                dir_info_views(r@) =~= dir_info_views(self.sub_directories@).take(i as int),
        {
            let ghost pre = r@;
            r.push(self.sub_directories[i].clone());
            proof {
                assert(dir_info_views(r@) =~= dir_info_views(pre).push(
                    self.sub_directories@[i as int]@,
                ));
                assert(dir_info_views(self.sub_directories@).take(i + 1).drop_last()
                    =~= dir_info_views(self.sub_directories@).take(i as int));
                assert(dir_info_views(r@) =~= dir_info_views(self.sub_directories@).take(i + 1));
            }
        }
        proof {
            assert(dir_info_views(self.sub_directories@).take(self.sub_directories@.len() as int)
                =~= dir_info_views(self.sub_directories@));
        }
        r
    }

    pub fn set_sub_directories(&mut self, dirs: Vec<DirectoryInfo>)
        ensures
            final(self)@ == (DirectoryListingV {
                sub_directories: dir_info_views(dirs@),
                ..old(self)@
            }),
    {
        self.sub_directories = dirs;
    }

    pub fn set_name(&mut self, name: String)
        ensures
            final(self)@ == (DirectoryListingV {
                info: DirectoryInfoV {
                    metadata: MetadataV { name: name@, ..old(self)@.info.metadata },
                    ..old(self)@.info
                },
                ..old(self)@
            }),
    {
        self.info.get_mut_metadata().set_name(name);
    }

    pub fn get_id(&self) -> (r: Name)
        ensures
            r@ == self@.info.id,
    {
        self.info.get_id().clone()
    }

    pub fn get_name(&self) -> (r: String)
        ensures
            r@ == self@.info.metadata.name,
    {
        self.info.get_metadata().get_name()
    }
}

/// The serial forms of a sequence of directory identities.
pub open spec fn dir_infos_bytes_spec(s: Seq<DirectoryInfoV>) -> Seq<Seq<u8>> {
    s.map_values(|d: DirectoryInfoV| dir_info_bytes_spec(d))
}

/// The serial forms of a sequence of files.
pub open spec fn files_bytes_spec(s: Seq<FileV>) -> Seq<Seq<u8>> {
    s.map_values(|f: FileV| file_bytes_spec(f))
}

/// Serial form of a listing: the identity as a chunk, then the
/// sub-directory list, then the file list.
pub open spec fn directory_listing_bytes_spec(d: DirectoryListingV) -> Seq<u8> {
    chunk_spec(dir_info_bytes_spec(d.info)) + list_spec(dir_infos_bytes_spec(d.sub_directories))
        + list_spec(files_bytes_spec(d.files))
}

/// Parsing each list item as a directory identity.
pub open spec fn decode_dir_infos_spec(items: Seq<Seq<u8>>) -> Option<Seq<DirectoryInfoV>>
    decreases items.len(),
{
    if items.len() == 0 {
        Some(Seq::empty())
    } else {
        match decode_dir_info_spec(items[0]) {
            None => None,
            Some(d) => match decode_dir_infos_spec(items.drop_first()) {
                None => None,
                Some(rest) => Some(seq![d] + rest),
            },
        }
    }
}

/// Parsing each list item as a file.
pub open spec fn decode_files_spec(items: Seq<Seq<u8>>) -> Option<Seq<FileV>>
    decreases items.len(),
{
    if items.len() == 0 {
        Some(Seq::empty())
    } else {
        match decode_file_spec(items[0]) {
            None => None,
            Some(f) => match decode_files_spec(items.drop_first()) {
                None => None,
                Some(rest) => Some(seq![f] + rest),
            },
        }
    }
}

/// Parsing a listing from a whole buffer.
pub open spec fn decode_directory_listing_spec(data: Seq<u8>) -> Option<DirectoryListingV> {
    match read_chunk_spec(data, 0) {
        None => None,
        Some((ib, p1)) => match decode_dir_info_spec(ib) {
            None => None,
            Some(info) => match read_list_spec(data, p1) {
                None => None,
                Some((sub_items, p2)) => match decode_dir_infos_spec(sub_items) {
                    None => None,
                    Some(sub_directories) => match read_list_spec(data, p2) {
                        None => None,
                        Some((file_items, p3)) => match decode_files_spec(file_items) {
                            None => None,
                            Some(files) => if p3 == data.len() {
                                Some(DirectoryListingV { info, sub_directories, files })
                            } else {
                                None
                            },
                        },
                    },
                },
            },
        },
    }
}

/// Serialises a listing, as `directory_listing_bytes_spec` describes.
pub fn encode_directory_listing(d: &DirectoryListing) -> (r: Vec<u8>)
    ensures
        r@ == directory_listing_bytes_spec(d@),
{
    let mut out: Vec<u8> = Vec::new();
    let ib = encode_dir_info(&d.info);
    write_chunk(&mut out, ib.as_slice());
    let mut sub_items: Vec<Vec<u8>> = Vec::new();
    let ghost sv = dir_info_views(d.sub_directories@);
    for i in 0..d.sub_directories.len()
        invariant
            sv == dir_info_views(d.sub_directories@),
            sub_items.deep_view() =~~= dir_infos_bytes_spec(sv.take(i as int)),
    {
        let b = encode_dir_info(&d.sub_directories[i]);
        let ghost pre = sub_items.deep_view();
        sub_items.push(b);
        proof {
            assert(sub_items.deep_view() =~~= pre.push(b@));
            assert(sv.take(i + 1).drop_last() =~= sv.take(i as int));
            assert(dir_infos_bytes_spec(sv.take(i + 1)) =~~= dir_infos_bytes_spec(
                sv.take(i as int),
            ).push(dir_info_bytes_spec(sv[i as int])));
            assert(sub_items.deep_view() =~~= dir_infos_bytes_spec(sv.take(i + 1)));
        }
    }
    proof {
        assert(sv.take(d.sub_directories@.len() as int) =~= sv);
    }
    write_list(&mut out, &sub_items);
    let mut file_items: Vec<Vec<u8>> = Vec::new();
    let ghost fv = file_views(d.files@);
    for i in 0..d.files.len()
        invariant
            fv == file_views(d.files@),
            file_items.deep_view() =~~= files_bytes_spec(fv.take(i as int)),
    {
        let b = encode_file(&d.files[i]);
        let ghost pre = file_items.deep_view();
        file_items.push(b);
        proof {
            assert(file_items.deep_view() =~~= pre.push(b@));
            assert(fv.take(i + 1).drop_last() =~= fv.take(i as int));
            assert(files_bytes_spec(fv.take(i + 1)) =~~= files_bytes_spec(
                fv.take(i as int),
            ).push(file_bytes_spec(fv[i as int])));
            assert(file_items.deep_view() =~~= files_bytes_spec(fv.take(i + 1)));
        }
    }
    proof {
        assert(fv.take(d.files@.len() as int) =~= fv);
    }
    write_list(&mut out, &file_items);
    proof {
        assert(out@ =~= directory_listing_bytes_spec(d@));
    }
    out
}

/// Parses the items of `v` from index `i` on as directory identities.
fn decode_dir_info_vec(v: &Vec<Vec<u8>>, i: usize) -> (r: Option<Vec<DirectoryInfo>>)
    requires
        i <= v@.len(),
    ensures
        (match r {
            Some(ds) => decode_dir_infos_spec(v.deep_view().skip(i as int)) == Some(
                dir_info_views(ds@),
            ),
            None => decode_dir_infos_spec(v.deep_view().skip(i as int)) is None,
        }),
    decreases v@.len() - i,
{
    if i == v.len() {
        let ds: Vec<DirectoryInfo> = Vec::new();
        proof {
            assert(v.deep_view().skip(i as int) =~~= Seq::<Seq<u8>>::empty());
            assert(dir_info_views(ds@) =~= Seq::<DirectoryInfoV>::empty());
        }
        Some(ds)
    } else {
        proof {
            assert(v.deep_view()[i as int] =~= v@[i as int]@);
            assert(v.deep_view().skip(i as int)[0] == v.deep_view()[i as int]);
            assert(v.deep_view().skip(i as int).drop_first() =~~= v.deep_view().skip(i + 1));
        }
        match decode_dir_info(v[i].as_slice()) {
            None => None,
            Some(d) => match decode_dir_info_vec(v, i + 1) {
                None => None,
                Some(rest) => {
                    let ghost d_v = d@;
                    let ghost rest_seq = rest@;
                    let ghost rest_view = dir_info_views(rest@);
                    let mut ds: Vec<DirectoryInfo> = Vec::new();
                    ds.push(d);
                    let mut rest_vec = rest;
                    ds.append(&mut rest_vec);
                    proof {
                        let sv = v.deep_view().skip(i as int);
                        assert(decode_dir_infos_spec(sv) == Some(seq![d_v] + rest_view));
                        assert(ds@ =~= seq![ds@[0]] + rest_seq);
                        assert(dir_info_views(ds@) =~= seq![d_v] + rest_view);
                    }
                    Some(ds)
                },
            },
        }
    }
}

/// Parses the items of `v` from index `i` on as files.
fn decode_file_vec(v: &Vec<Vec<u8>>, i: usize) -> (r: Option<Vec<File>>)
    requires
        i <= v@.len(),
    ensures
        (match r {
            Some(fs) => decode_files_spec(v.deep_view().skip(i as int)) == Some(file_views(fs@)),
            None => decode_files_spec(v.deep_view().skip(i as int)) is None,
        }),
    decreases v@.len() - i,
{
    if i == v.len() {
        let fs: Vec<File> = Vec::new();
        proof {
            assert(v.deep_view().skip(i as int) =~~= Seq::<Seq<u8>>::empty());
            assert(file_views(fs@) =~= Seq::<FileV>::empty());
        }
        Some(fs)
    } else {
        proof {
            assert(v.deep_view()[i as int] =~= v@[i as int]@);
            assert(v.deep_view().skip(i as int)[0] == v.deep_view()[i as int]);
            assert(v.deep_view().skip(i as int).drop_first() =~~= v.deep_view().skip(i + 1));
        }
        match decode_file(v[i].as_slice()) {
            None => None,
            Some(f) => match decode_file_vec(v, i + 1) {
                None => None,
                Some(rest) => {
                    let ghost f_v = f@;
                    let ghost rest_seq = rest@;
                    let ghost rest_view = file_views(rest@);
                    let mut fs: Vec<File> = Vec::new();
                    fs.push(f);
                    let mut rest_vec = rest;
                    fs.append(&mut rest_vec);
                    proof {
                        let sv = v.deep_view().skip(i as int);
                        assert(decode_files_spec(sv) == Some(seq![f_v] + rest_view));
                        assert(fs@ =~= seq![fs@[0]] + rest_seq);
                        assert(file_views(fs@) =~= seq![f_v] + rest_view);
                    }
                    Some(fs)
                },
            },
        }
    }
}

/// Parses a listing, as `decode_directory_listing_spec` describes.
pub fn decode_directory_listing(data: &[u8]) -> (r: Option<DirectoryListing>)
    ensures
        (match r {
            Some(d) => decode_directory_listing_spec(data@) == Some(d@),
            None => decode_directory_listing_spec(data@) is None,
        }),
{
    let (ib, p1) = match read_chunk(data, 0) {
        Some(x) => x,
        None => {
            return None;
        },
    };
    let info = match decode_dir_info(ib.as_slice()) {
        Some(d) => d,
        None => {
            return None;
        },
    };
    let (sub_items, p2) = match read_list(data, p1) {
        Some(x) => x,
        None => {
            return None;
        },
    };
    let sub_directories = match decode_dir_info_vec(&sub_items, 0) {
        Some(ds) => ds,
        None => {
            proof {
                assert(sub_items.deep_view().skip(0) =~~= sub_items.deep_view());
            }
            return None;
        },
    };
    let (file_items, p3) = match read_list(data, p2) {
        Some(x) => x,
        None => {
            return None;
        },
    };
    let files = match decode_file_vec(&file_items, 0) {
        Some(fs) => fs,
        None => {
            proof {
                assert(file_items.deep_view().skip(0) =~~= file_items.deep_view());
            }
            return None;
        },
    };
    if p3 != data.len() {
        return None;
    }
    let r = DirectoryListing { info, sub_directories, files };
    proof {
        assert(sub_items.deep_view().skip(0) =~~= sub_items.deep_view());
        assert(file_items.deep_view().skip(0) =~~= file_items.deep_view());
    }
    Some(r)
}

/// Read-only view of a file fetched from the network.
pub struct Blob {
    file: File,
}

impl Blob {
    pub fn get_name(&self) -> (r: String)
        ensures
            r@ == self.as_file_view().metadata.name,
    {
        self.file.get_metadata().get_name()
    }

    pub fn get_user_metadata(&self) -> (r: Option<Vec<u8>>)
        ensures
            (match r {
                Some(b) => self.as_file_view().metadata.user_metadata == Some(b@),
                None => self.as_file_view().metadata.user_metadata is None,
            }),
    {
        self.file.get_metadata().get_user_metadata()
    }

    pub fn get_created_time(&self) -> (r: u64)
        ensures
            r == self.as_file_view().metadata.created_time,
    {
        self.file.get_metadata().get_created_time()
    }

    pub fn get_modified_time(&self) -> (r: u64)
        ensures
            r == self.as_file_view().metadata.modified_time,
    {
        self.file.get_metadata().get_modified_time()
    }

    pub fn get_size(&self) -> (r: u64)
        ensures
            r == self.as_file_view().metadata.size,
    {
        self.file.get_metadata().get_size()
    }
}

/// Anything that stands for a file and converts to and from one without
/// loss: both conversions are exact with respect to the file the wrapper
/// stands for, so wrapping and unwrapping round-trip.
pub trait FileWrapper {
    /// The file this wrapper stands for.
    spec fn as_file_view(&self) -> FileV;

    fn convert_to_file(&self) -> (r: File)
        ensures
            r@ == self.as_file_view(),
    ;

    fn convert_from_file(file: File) -> (r: Self) where Self: Sized
        ensures
            r.as_file_view() == file@,
    ;
}

impl FileWrapper for Blob {
    closed spec fn as_file_view(&self) -> FileV {
        self.file@
    }

    fn convert_to_file(&self) -> (r: File) {
        self.file.clone()
    }

    fn convert_from_file(file: File) -> (r: Blob) {
        Blob { file }
    }
}

/// Anything that stands for a directory listing.
pub trait DirectoryListingWrapper {
    fn convert_to_directory_listing(&self) -> DirectoryListing;

    fn convert_from_directory_listing(directory_listing: DirectoryListing) -> Self where Self: Sized;
}

/// Anything that stands for a directory identity.
pub trait DirectoryInfoWrapper {
    fn convert_to_directory_info(&self) -> DirectoryInfo;

    fn convert_from_directory_info(info: DirectoryInfo) -> Self where Self: Sized;
}

/// The validation a reader applies before handing a range to the chunked
/// content engine: both the position and the length must lie within the
/// content size.
pub fn read_range_ok(position: u64, length: u64, size: u64) -> (r: bool)
    ensures
        r == (position <= size && length <= size),
{
    position <= size && length <= size
}

/// Bounds under which metadata fits its serial form's length fields.
pub open spec fn metadata_encodable(m: MetadataV) -> bool {
    &&& vstd::utf8::encode_utf8(m.name).len() <= u64::MAX
    &&& (m.user_metadata matches Some(b) ==> b.len() <= u64::MAX)
    &&& metadata_bytes_spec(m).len() <= u64::MAX
}

/// Reading metadata back from its serial form yields the metadata itself.
pub proof fn lemma_metadata_roundtrip(m: MetadataV)
    requires
        metadata_encodable(m),
    ensures
        decode_metadata_spec(metadata_bytes_spec(m)) == Some(m),
{
    broadcast use vstd::utf8::encode_utf8_valid_utf8, vstd::utf8::encode_utf8_decode_utf8;

    let data = metadata_bytes_spec(m);
    let nb = vstd::utf8::encode_utf8(m.name);
    let um_part = (match m.user_metadata {
        None => spec_u64_to_le_bytes(0),
        Some(b) => spec_u64_to_le_bytes(1) + chunk_spec(b),
    });
    let tail_times = spec_u64_to_le_bytes(m.created_time) + spec_u64_to_le_bytes(m.modified_time)
        + spec_u64_to_le_bytes(m.size);
    assert(data.subrange(0, data.len() as int) =~= chunk_spec(nb) + (um_part + tail_times));
    crate::codec::lemma_read_chunk_at(data, 0, nb, um_part + tail_times);
    let p1 = 0 + 8 + nb.len() as int;
    assert(valid_utf8(nb));
    assert(decode_utf8(nb) == m.name);
    match m.user_metadata {
        None => {
            assert(data.subrange(p1, data.len() as int) =~= spec_u64_to_le_bytes(0)
                + tail_times);
            crate::codec::lemma_read_u64_at(data, p1, 0, tail_times);
            lemma_metadata_tail(data, p1 + 8, m);
        },
        Some(b) => {
            assert(data.subrange(p1, data.len() as int) =~= spec_u64_to_le_bytes(1) + (
            chunk_spec(b) + tail_times));
            crate::codec::lemma_read_u64_at(data, p1, 1, chunk_spec(b) + tail_times);
            assert(data.subrange(p1 + 8, data.len() as int) =~= chunk_spec(b) + tail_times);
            crate::codec::lemma_read_chunk_at(data, p1 + 8, b, tail_times);
            lemma_metadata_tail(data, p1 + 8 + 8 + b.len() as int, m);
        },
    }
}

/// Reading the three trailing integers of a metadata encoding.
proof fn lemma_metadata_tail(data: Seq<u8>, pos: int, m: MetadataV)
    requires
        0 <= pos <= data.len(),
        data.subrange(pos, data.len() as int) == spec_u64_to_le_bytes(m.created_time)
            + spec_u64_to_le_bytes(m.modified_time) + spec_u64_to_le_bytes(m.size),
    ensures
        crate::codec::read_u64_spec(data, pos) == Some((m.created_time, pos + 8)),
        crate::codec::read_u64_spec(data, pos + 8) == Some((m.modified_time, pos + 16)),
        crate::codec::read_u64_spec(data, pos + 16) == Some((m.size, pos + 24)),
        pos + 24 == data.len(),
{
    let t2 = spec_u64_to_le_bytes(m.modified_time) + spec_u64_to_le_bytes(m.size);
    assert(data.subrange(pos, data.len() as int) =~= spec_u64_to_le_bytes(m.created_time) + t2);
    crate::codec::lemma_read_u64_at(data, pos, m.created_time, t2);
    assert(data.subrange(pos + 8, data.len() as int) =~= spec_u64_to_le_bytes(m.modified_time)
        + spec_u64_to_le_bytes(m.size));
    crate::codec::lemma_read_u64_at(data, pos + 8, m.modified_time, spec_u64_to_le_bytes(m.size));
    assert(data.subrange(pos + 16, data.len() as int) =~= spec_u64_to_le_bytes(m.size)
        + Seq::<u8>::empty());
    crate::codec::lemma_read_u64_at(data, pos + 16, m.size, Seq::<u8>::empty());
    vstd::bytes::lemma_auto_spec_u64_to_from_le_bytes();
}

/// Bounds under which a file fits its serial form's length fields.
pub open spec fn file_encodable(f: FileV) -> bool {
    &&& metadata_encodable(f.metadata)
    &&& f.datamap.len() <= u64::MAX
}

/// Reading a file back from its serial form yields the file itself.
pub proof fn lemma_file_roundtrip(f: FileV)
    requires
        file_encodable(f),
    ensures
        decode_file_spec(file_bytes_spec(f)) == Some(f),
{
    let data = file_bytes_spec(f);
    let mb = metadata_bytes_spec(f.metadata);
    assert(data.subrange(0, data.len() as int) =~= chunk_spec(mb) + chunk_spec(f.datamap));
    crate::codec::lemma_read_chunk_at(data, 0, mb, chunk_spec(f.datamap));
    lemma_metadata_roundtrip(f.metadata);
    let p1 = 0 + 8 + mb.len() as int;
    assert(data.subrange(p1, data.len() as int) =~= chunk_spec(f.datamap) + Seq::<u8>::empty());
    crate::codec::lemma_read_chunk_at(data, p1, f.datamap, Seq::<u8>::empty());
}

/// Bounds under which a directory identity fits its serial form.
pub open spec fn dir_info_encodable(d: DirectoryInfoV) -> bool {
    &&& d.id.len() == NAME_BYTES
    &&& d.parent_dir_id.len() == NAME_BYTES
    &&& metadata_encodable(d.metadata)
}

/// Reading a directory identity back from its serial form yields the
/// identity itself.
pub proof fn lemma_dir_info_roundtrip(d: DirectoryInfoV)
    requires
        dir_info_encodable(d),
    ensures
        decode_dir_info_spec(dir_info_bytes_spec(d)) == Some(d),
{
    let data = dir_info_bytes_spec(d);
    let mb = metadata_bytes_spec(d.metadata);
    let rest1 = chunk_spec(d.parent_dir_id) + chunk_spec(mb);
    assert(data.subrange(0, data.len() as int) =~= chunk_spec(d.id) + rest1);
    crate::codec::lemma_read_chunk_at(data, 0, d.id, rest1);
    let p1 = 0 + 8 + d.id.len() as int;
    assert(data.subrange(p1, data.len() as int) =~= chunk_spec(d.parent_dir_id) + chunk_spec(mb));
    crate::codec::lemma_read_chunk_at(data, p1, d.parent_dir_id, chunk_spec(mb));
    let p2 = p1 + 8 + d.parent_dir_id.len() as int;
    assert(data.subrange(p2, data.len() as int) =~= chunk_spec(mb) + Seq::<u8>::empty());
    crate::codec::lemma_read_chunk_at(data, p2, mb, Seq::<u8>::empty());
    lemma_metadata_roundtrip(d.metadata);
}

/// Parsing the serial forms of directory identities yields the identities
/// themselves.
pub proof fn lemma_dir_infos_roundtrip(ds: Seq<DirectoryInfoV>)
    requires
        forall|i: int| 0 <= i < ds.len() ==> dir_info_encodable(#[trigger] ds[i]),
    ensures
        decode_dir_infos_spec(dir_infos_bytes_spec(ds)) == Some(ds),
    decreases ds.len(),
{
    let items = dir_infos_bytes_spec(ds);
    if ds.len() == 0 {
        assert(items =~~= Seq::<Seq<u8>>::empty());
    } else {
        lemma_dir_info_roundtrip(ds[0]);
        lemma_dir_infos_roundtrip(ds.drop_first());
        assert(items.drop_first() =~~= dir_infos_bytes_spec(ds.drop_first()));
        assert(seq![ds[0]] + ds.drop_first() =~= ds);
    }
}

/// Parsing the serial forms of files yields the files themselves.
pub proof fn lemma_files_roundtrip(fs: Seq<FileV>)
    requires
        forall|i: int| 0 <= i < fs.len() ==> file_encodable(#[trigger] fs[i]),
    ensures
        decode_files_spec(files_bytes_spec(fs)) == Some(fs),
    decreases fs.len(),
{
    let items = files_bytes_spec(fs);
    if fs.len() == 0 {
        assert(items =~~= Seq::<Seq<u8>>::empty());
    } else {
        lemma_file_roundtrip(fs[0]);
        lemma_files_roundtrip(fs.drop_first());
        assert(items.drop_first() =~~= files_bytes_spec(fs.drop_first()));
        assert(seq![fs[0]] + fs.drop_first() =~= fs);
    }
}

/// Bounds under which a listing fits its serial form's length fields.
pub open spec fn listing_encodable(d: DirectoryListingV) -> bool {
    &&& dir_info_encodable(d.info)
    &&& dir_info_bytes_spec(d.info).len() <= u64::MAX
    &&& d.sub_directories.len() <= u64::MAX
    &&& d.files.len() <= u64::MAX
    &&& forall|i: int| 0 <= i < d.sub_directories.len() ==> dir_info_encodable(
        #[trigger] d.sub_directories[i],
    ) && dir_info_bytes_spec(d.sub_directories[i]).len() <= u64::MAX
    &&& forall|i: int| 0 <= i < d.files.len() ==> file_encodable(#[trigger] d.files[i])
        && file_bytes_spec(d.files[i]).len() <= u64::MAX
}

/// Reading a listing back from its serial form yields the listing itself:
/// the round trip that carries listings over the network loses nothing.
pub proof fn lemma_directory_listing_roundtrip(d: DirectoryListingV)
    requires
        listing_encodable(d),
    ensures
        decode_directory_listing_spec(directory_listing_bytes_spec(d)) == Some(d),
{
    let data = directory_listing_bytes_spec(d);
    let ib = dir_info_bytes_spec(d.info);
    let subs = dir_infos_bytes_spec(d.sub_directories);
    let fils = files_bytes_spec(d.files);
    let rest1 = list_spec(subs) + list_spec(fils);
    assert(data.subrange(0, data.len() as int) =~= chunk_spec(ib) + rest1);
    crate::codec::lemma_read_chunk_at(data, 0, ib, rest1);
    lemma_dir_info_roundtrip(d.info);
    let p1 = 0 + 8 + ib.len() as int;
    assert(data.subrange(p1, data.len() as int) =~= list_spec(subs) + list_spec(fils));
    assert forall|i: int| 0 <= i < subs.len() implies #[trigger] subs[i].len() <= u64::MAX by {
        assert(subs[i] == dir_info_bytes_spec(d.sub_directories[i]));
    }
    crate::codec::lemma_read_list_at(data, p1, subs, list_spec(fils));
    lemma_dir_infos_roundtrip(d.sub_directories);
    let p2 = p1 + list_spec(subs).len() as int;
    assert(data.subrange(p2, data.len() as int) =~= list_spec(fils) + Seq::<u8>::empty());
    assert forall|i: int| 0 <= i < fils.len() implies #[trigger] fils[i].len() <= u64::MAX by {
        assert(fils[i] == file_bytes_spec(d.files[i]));
    }
    crate::codec::lemma_read_list_at(data, p2, fils, Seq::<u8>::empty());
    lemma_files_roundtrip(d.files);
    assert(p2 + list_spec(fils).len() == data.len());
}

} // verus!
