[package]
name = "fs3"
version = "0.1.0"
edition = "2021"
publish = false

[dependencies]
libc = "0.2"
winapi = { version = "0.3", features = ["fileapi", "handleapi", "minwinbase", "minwindef", "processthreadsapi", "std", "winbase", "winerror", "winnt"] }

[dev-dependencies]
tempdir = "0.3"
rustix = { version = "*", features = ["fs"] }
