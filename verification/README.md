# rustadmin_probes

Measuring and safety tools for RustAdmin, with their logic in a verified library.

| Module | What it holds |
| --- | --- |
| `netprobe` | the record format and the UDP packet format, the receivers and senders of the network probe, its command line and its log lines |
| `screen` | the screen benchmark: synthetic scenes, recordings, colour reduction, YUV layouts and quality, active maps, totals and percentiles, its command line |
| `debugprobe` | what the Windows debug probe selects and reports |
| `dxgi` | what the desktop duplication probe decides, hashes, saves and reports |
| `safety` | inputs and verdicts of the safety probes |
| `text`, `parse`, `magnitude`, `bytes`, `wide`, `bitmap` | texts and JSON, numbers, exact decimal comparison, byte order, UTF-16, bitmap files |

`src/` is the library. Every function in it is checked by Verus against its contract; laws that
relate several functions are public proof functions whose names begin with `law_`. Time, sockets,
files and screens stay outside: the library takes clock readings and bytes, and hands back bytes,
events and decisions. The senders and receivers are state machines: the program asks for the next
step, carries it out and reports how it ended.

`app/` is the program around it. Its first argument names the tool:

    netprobe, av1-screen-bench, debugprobe, dxgi-probe, codec-header-alloc-probe,
    file-transfer-path-probe, ipc-path-probe, online-request-client, zstd-expansion-probe

The codecs, the screen capture and the safety probes need `hbb_common`, `scrap` and `hwcodec` from
the RustDesk sources; that part is compiled with `--cfg rustdesk`.

What the library takes from the standard library without proof: `String::push`,
`char::from_u32` and the sort of a slice of integers.
