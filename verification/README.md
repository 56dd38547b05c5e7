# burnmark

Differential testing of tensor frameworks. A program in a small single-assignment
tensor language is run on several targets (candle, burn's backends, libtorch), and
what they return is compared with the first target, the reference.

Any bytes are a program. Register references, dimensions, counts and exponents are
raw bytes that are legalised against the registers that exist, so that no input is
rejected and every target runs the same instructions on the same data.

## Layout

`src/` is a Verus library; every function in it is verified, but for the trusted calls
named below the table.

| module      | what it holds                                                          |
|-------------|------------------------------------------------------------------------|
| `text`      | decimal numbers, trimming, splitting, case                             |
| `float`     | 32-bit floating-point numbers as bit patterns                          |
| `shape`     | two-dimensional shapes and the element cap                             |
| `ops`       | the instructions, as written and as resolved, and how they are printed |
| `resolve`   | operand resolution and the shapes of results                           |
| `program`   | tensor programs: what they run and how they are listed                 |
| `autograd`  | programs with differentiated leaves                                    |
| `driver`    | running a program on a framework                                       |
| `matrix`    | what an instruction means, but for the arithmetic                      |
| `candle`    | candle as a framework                                                  |
| `burn_eval` | evaluating instructions with burn                                      |
| `oracle`    | comparing what targets returned                                        |
| `target`    | backends and targets, and the order in which they are trusted          |
| `selection` | choosing targets by name                                               |
| `config`    | settings from environment variables                                    |

Calls into candle and burn, and two functions of the standard library, are trusted:
each is one small function marked `external_body` whose contract says what is relied on.

What is relied on of burn is what its ndarray backend does, built without `simd`, as
`Cargo.toml` has it; a program that links other backends of burn relies on the same of
them.

`app/` is ordinary Rust around the library: burn's backward pass and libtorch, which
report failure by panicking, the entry points that run all targets and catch panics,
the floating-point tolerance, the environment, and the decoding of fuzzer input.

`tests/` runs the library, candle and burn included.

## Numbers

Floating-point numbers are bit patterns in the library. Their shapes, their order and
their special values are proved about; what arithmetic yields on them is the
framework's answer, and whether two finite numbers are within the tolerance is decided
in `app/` and handed to the comparison.
