use vstd::prelude::*;

verus! {

/// Kind of an entry in the device's file tree.
#[derive(Debug, Clone, Copy, PartialEq, Eq, Structural)]
pub enum FileType {
    File,
    Directory,
    Symlink,
    Other,
}

/// The kind that the first character of an `ls -l` mode string names.
pub open spec fn file_type_of(c: char) -> FileType {
    if c == '-' {
        FileType::File
    } else if c == 'd' {
        FileType::Directory
    } else if c == 'l' {
        FileType::Symlink
    } else {
        FileType::Other
    }
}

impl Default for FileType {
    fn default() -> (r: Self)
        ensures
            r == FileType::Directory,
    {
        FileType::Directory
    }
}

impl From<&char> for FileType {
    fn from(s: &char) -> (r: Self) {
        match *s {
            '-' => FileType::File,
            'd' => FileType::Directory,
            'l' => FileType::Symlink,
            _ => FileType::Other,
        }
    }
}

impl vstd::std_specs::convert::FromSpecImpl<&char> for FileType {
    open spec fn obeys_from_spec() -> bool {
        true
    }

    open spec fn from_spec(s: &char) -> FileType {
        file_type_of(*s)
    }
}

/// Metadata of one entry, as `stat` reports it.
#[derive(Debug, Clone)]
pub struct FileInfo {
    pub inode: usize,
    pub permissions: String,
    pub created_time: usize,
    pub modified_time: usize,
    pub accessed_time: usize,
    pub user: String,
    pub group: String,
    pub size: u64,
}

impl FileInfo {
    /// A copy of this metadata.
    pub fn copy(&self) -> (r: Self)
        ensures
            r.inode == self.inode,
            r.permissions@ == self.permissions@,
            r.created_time == self.created_time,
            r.modified_time == self.modified_time,
            r.accessed_time == self.accessed_time,
            r.user@ == self.user@,
            r.group@ == self.group@,
            r.size == self.size,
    {
        FileInfo {
            inode: self.inode,
            permissions: self.permissions.clone(),
            created_time: self.created_time,
            modified_time: self.modified_time,
            accessed_time: self.accessed_time,
            user: self.user.clone(),
            group: self.group.clone(),
            size: self.size,
        }
    }
}

impl Default for FileInfo {
    fn default() -> (r: Self)
        ensures
            r.inode == 0,
            r.permissions@ == Seq::<char>::empty(),
            r.created_time == 0,
            r.modified_time == 0,
            r.accessed_time == 0,
            r.user@ == Seq::<char>::empty(),
            r.group@ == Seq::<char>::empty(),
            r.size == 0,
    {
        FileInfo {
            inode: 0,
            permissions: String::new(),
            created_time: 0,
            modified_time: 0,
            accessed_time: 0,
            user: String::new(),
            group: String::new(),
            size: 0,
        }
    }
}

/// Settings of a screen recording.
#[derive(Debug, Clone, Copy)]
pub struct RecordingConfig {
    /// Whether to include audio in the recording.
    pub include_audio: bool,
    /// Frames per second to capture.
    pub fps: u32,
    /// Width of the captured video; 0 for the display's own.
    pub width: u32,
    /// Height of the captured video; 0 for the display's own.
    pub height: u32,
    /// Display to record; 0 for the main one.
    pub display: u32,
    /// Audio samples per second, used only with audio.
    pub audio_sample_rate: u64,
}

impl RecordingConfig {
    /// The size to record: the configured one, or, when either side is 0,
    /// that of display `index` among the `displays` the device reports
    /// (width, height); none when there is no such display.
    pub fn resolve_size(&self, displays: &Vec<(u32, u32)>, index: usize) -> (r: Option<(u32, u32)>)
        ensures
            self.width != 0 && self.height != 0 ==> r == Some((self.width, self.height)),
            self.width == 0 || self.height == 0 ==> (r is Some <==> index < displays@.len()),
            (self.width == 0 || self.height == 0) && index < displays@.len() ==> r == Some(
                displays@[index as int],
            ),
    {
        if self.width != 0 && self.height != 0 {
            Some((self.width, self.height))
        } else if index < displays.len() {
            Some(displays[index])
        } else {
            None
        }
    }
}

impl Default for RecordingConfig {
    fn default() -> (r: Self)
        ensures
            r == (RecordingConfig {
                include_audio: false,
                fps: 30,
                width: 0,
                height: 0,
                display: 0,
                audio_sample_rate: 44100,
            }),
    {
        RecordingConfig {
            include_audio: false,
            fps: 30,
            width: 0,
            height: 0,
            display: 0,
            audio_sample_rate: 44100,
        }
    }
}

} // verus!
