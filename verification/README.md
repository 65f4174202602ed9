# ffkit

A terminal interface to FFmpeg: pick an operation, pick files, adjust a form,
and watch the FFmpeg command build itself before it runs.

`src/` is the verified library. It holds everything the program decides, each
function with a contract that Verus proves:

- `ops/`: the eleven operations, their form fields, and the command each builds
- `ffmpeg/`: commands and their quoting, reading FFmpeg's and ffprobe's output,
  the stages of a running job, and diagnoses of failures
- `queue/`: batch jobs, from their names to their end
- `config/`: settings and presets
- `ui/`: what each screen shows and what a key does there
- `app/`: the program's state, and how keys, messages and outcomes change it

The library touches no file, process or clock. It returns the deeds it wants
done, and is told what came of them.

`app/` is the program around it: arguments, the terminal, processes, files, the
clipboard, and the encodings of the configuration file and of ffprobe's report.

`tests/` runs the library on concrete values.

What the proofs take on trust is small: the text field of `tui-input`, the
splitting of areas by `ratatui`, the decoding and scaling of images by `image`,
and a few functions of `std` on text. Each stands beside its contract, marked
`#[verifier::external_body]` or as an `assume_specification`.
