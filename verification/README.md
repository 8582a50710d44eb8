# atctl

`atctl` sends and manages AT commands for USB cellular modems: direct
commands, presets, multi-step sequences (SMS, ping, TCP), a PTY bridge for
terminal tools, and masked history and session logs.

## Layout

- `src/` is the library, verified with Verus. Every decision of the tool
  lives here with its contract: command normalization and risk
  classification, the confirmation policy, masking of identifiers and
  credentials, response parsing, preset and sequence models and loading
  rules, parameter binding and rendering, the sequence engine, the PTY
  bridge's line handling, raw-export records, log paths and listings, USB
  endpoint selection and the descriptor inspection report.
- `src/**` public proof functions named `law_*` state properties that hold
  across calls, such as that an effective risk is never lower than the
  classifier's, or that the bridge's decision function holds a risky command
  until its exact risk label is typed.
- The library keeps ghost records of what it does with the world around it:
  `AtLink` records each open, close, write and read of the transport with
  what it returned (a pause between retries is not recorded) and every error
  the transport returned, `PromptLink` every question put to the user and
  its answer, `PtyLink` every text shown on the bridge's PTY, and
  `RawLogLink` every line handed to a raw export and every error the export
  returned, and `DefinitionLink` every read of preset or sequence files and
  what it gave back. The contracts speak of these records:
  - a sequence run writes, between opening and closing the transport, the
    writes of each step in order (its PDP-context check, its rendered
    command, sent again only while a TCP acknowledgement is incomplete, and
    its rendered payload), each step with the bindings the previous one left;
    after a failed step it writes the cleanups kept so far, newest first,
    then closes; a run that stops on an error has written the same up to
    that point, and its error is one the transport or the raw export
    returned, a template that did not render, or the time running out; the
    status reported for each step is the one its last read gives under the
    step's rules (those of its command, of its payload, or of the PDP-context
    check), read with the bindings the step ran with; the masked transcript
    shows the command and the payload of each step that succeeded masked
    with those bindings; a parameter error touches neither the transport nor the raw
    export;
  - a command that needs the user's confirmation is sent only after the
    prompt was asked about that classification and accepted; a refusal is
    the result and leaves the transport untouched; the only later question
    is the acknowledgement of a raw export;
  - the preset and sequence lists are the built-ins followed by what the
    reads of the given files, then of the given directories, gave back, in
    order;
  - the bridge shows the masked response of what it sent, the risk prompt of
    a risky command (in full once the command is pending), or the cancel
    notice, and writes nothing for a risky command before its risk label.
  What the modem and the user answer is up to them; the contracts say what
  the library does with each answer.
- `app/` is the command-line program around the library: argument parsing,
  TOML and JSON, files, libusb and the PTY. It hands the library plain values
  and performs what the library decides.
- `tests/` exercise the library on concrete inputs with in-memory transports
  and writers.
