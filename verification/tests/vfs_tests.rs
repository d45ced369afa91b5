use bagua_os::kernel::vfs::{FileOps, FileType, Vfs, VfsError};

struct MemFile {
    data: Vec<u8>,
    closed: std::rc::Rc<std::cell::Cell<bool>>,
}

impl FileOps for MemFile {
    fn read(&mut self, buf: &mut [u8]) -> Result<usize, VfsError> {
        let n = buf.len().min(self.data.len());
        buf[..n].copy_from_slice(&self.data[..n]);
        Ok(n)
    }

    fn write(&mut self, buf: &[u8]) -> Result<usize, VfsError> {
        self.data.extend_from_slice(buf);
        Ok(buf.len())
    }

    fn close(&mut self) -> Result<(), VfsError> {
        self.closed.set(true);
        Ok(())
    }
}

struct Sink;

impl FileOps for Sink {
    fn read(&mut self, _buf: &mut [u8]) -> Result<usize, VfsError> {
        Err(VfsError::PermissionDenied)
    }

    fn write(&mut self, buf: &[u8]) -> Result<usize, VfsError> {
        Ok(buf.len())
    }

    fn close(&mut self) -> Result<(), VfsError> {
        Ok(())
    }
}

fn mem_file() -> (Box<dyn FileOps>, std::rc::Rc<std::cell::Cell<bool>>) {
    let flag = std::rc::Rc::new(std::cell::Cell::new(false));
    (Box::new(MemFile { data: Vec::new(), closed: flag.clone() }), flag)
}

#[test]
fn test_vfs_register_read_write() {
    let mut vfs = Vfs::new();
    let (f, _) = mem_file();
    let fd = vfs.register(FileType::Regular, f);
    assert_eq!(fd, 0);
    assert_eq!(vfs.write(fd, b"hello").unwrap(), 5);
    let mut buf = [0u8; 8];
    assert_eq!(vfs.read(fd, &mut buf).unwrap(), 5);
    assert_eq!(&buf[..5], b"hello");
    assert!(matches!(vfs.read(9, &mut buf), Err(VfsError::NotFound)));
    assert!(matches!(vfs.write(9, b"x"), Err(VfsError::NotFound)));
}

#[test]
fn test_vfs_descriptors_count_up() {
    let mut vfs = Vfs::new();
    assert_eq!(vfs.register(FileType::Device, Box::new(Sink)), 0);
    assert_eq!(vfs.register(FileType::Pipe, Box::new(Sink)), 1);
    assert_eq!(vfs.next_descriptor(), 2);
    assert!(matches!(vfs.read(1, &mut [0u8; 2]), Err(VfsError::PermissionDenied)));
}

#[test]
fn test_vfs_close_calls_file_close() {
    let mut vfs = Vfs::new();
    let (f, closed) = mem_file();
    let fd = vfs.register(FileType::Regular, f);
    assert!(vfs.close(fd).is_ok());
    assert!(closed.get());
    assert!(matches!(vfs.close(fd), Err(VfsError::NotFound)));
    assert!(matches!(vfs.write(fd, b"x"), Err(VfsError::NotFound)));
}

#[test]
fn test_vfs_full_table_drops_file() {
    let mut vfs = Vfs::new();
    for i in 0..64u32 {
        assert_eq!(vfs.register(FileType::Pipe, Box::new(Sink)), i);
    }
    let fd = vfs.register(FileType::Pipe, Box::new(Sink));
    assert_eq!(fd, 64);
    assert!(matches!(vfs.write(64, b"x"), Err(VfsError::NotFound)));
    assert_eq!(vfs.write(63, b"xy").unwrap(), 2);
}

#[test]
fn test_default_seek_unsupported() {
    let mut s = Sink;
    assert!(matches!(s.seek(3), Err(VfsError::NotSupported)));
    assert!(s.close().is_ok());
}
