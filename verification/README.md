# hwagent

A hardware inventory agent for servers without an operating system: booted from a USB stick,
it reads what the machine reports about itself (DMI, `/proc`, sysfs, `smartctl`, `lspci`,
`sensors`, `ipmitool`, `dmidecode`) and writes a plain-text and an HTML report back to the stick.

- `src/` is the library, verified with Verus. Each parser is stated by a spec function over the
  text it reads (`collectors/`), the reports by spec functions over the collected records
  (`report/`), and the file names and completion note in `output.rs`. `text.rs` and `num.rs`
  hold the character-level primitives (lines, trimming, splitting, integer parsing and
  printing) that the specs are written in.
- `app/` is the program: it runs the tools, reads the files, measures the sensors, and writes
  the reports.
- `tests/` runs the library on sample tool output and checks the primitives against `std`.
