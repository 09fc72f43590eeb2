[package]
name = "rustadmin_probes"
version = "0.1.0"
edition = "2021"
publish = false

[dependencies]
libfuzzer-sys = "0.4"
serde = { version = "1", features = ["derive"] }
serde_json = "1"
winapi = { version = "0.3", features = ["basetsd", "d3d11", "d3dcommon", "dxgi", "dxgi1_2", "dxgiformat", "dxgitype", "errhandlingapi", "fileapi", "handleapi", "libloaderapi", "minwindef", "ntdef", "processthreadsapi", "tlhelp32", "unknwnbase", "windef", "winerror", "wingdi", "winnt", "winuser"] }
