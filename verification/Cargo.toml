[package]
name = "winstamp"
version = "0.1.0"
edition = "2021"
publish = false

[dependencies]
clap = { version = "4", features = ["derive"] }
jwalk = "*"
winapi = { version = "0.3", features = ["errhandlingapi", "fileapi", "handleapi", "minwinbase", "winbase", "winnt", "minwindef"] }
