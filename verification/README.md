# hdr_backend

The decisions of a display and rendering backend with high dynamic range, written in Rust and
proved with Verus: what goes into an atomic request to the kernel, how a color transform is placed
on the color pipeline of a plane, which part of which memory block an image gets, what is recorded
into a frame and in which order work is submitted.

- `src/` is the library. Every item is verified, but the calls into `indexmap` (sets of formats),
  `drm` (the request that is filled) and `bytemuck` (words as bytes) rest on contracts that are
  trusted, each stated at the call. It performs no I/O: it takes what the kernel or the
  graphics device reported as plain values, and says what to ask of them next. Floating point values
  are carried as their bits; where arithmetic on them decides something, it is carried out exactly
  (`softfloat`).
- `app/` drives a real display and graphics device with it, and holds the transfer curves.
- `tests/` runs the library.

| Area | Modules |
| --- | --- |
| Color of the display | `color`, `metadata`, `ffi`, `description`, `scanout` |
| Color pipelines of planes | `colorop`, `plan`, `resolved` |
| Atomic requests and surfaces | `request`, `surface`, `atomic`, `idset` |
| Memory of the graphics device | `memory`, `suballoc`, `live`, `device` |
| Images and transfers | `image`, `imports`, `transfer`, `readback`, `formats`, `lut3d` |
| Frames | `frame`, `blit`, `barrier`, `scissors`, `geometry`, `hdr`, `gles`, `color32` |
| Submission | `renderer`, `sync`, `indirect`, `pipelines`, `descriptor`, `words` |
| Numbers and names | `softfloat`, `vk`, `names` |

Proof functions whose names start with `law_` state what holds of the library as a whole.
