# salus

A health check tool for containers: one probe per run, a stable exit code, and no output unless
something is wrong or output is asked for.

| Code | Meaning                                              |
|------|------------------------------------------------------|
| 0    | the target is healthy                                |
| 1    | the target is not healthy, or did not answer in time |
| 3    | the configuration is invalid                         |
| 4    | the tool itself failed                               |

## Layout

- `src/` is the library, verified with Verus: reading the command line and the environment,
  checking every option, deciding what to send and when to stop reading, and judging what came
  back. It does no I/O. The probes that alternate between I/O and decisions (`FileProbe`,
  `ExecProbe`, `BodyReader`, `Attempts`) are state machines that say what to do next and take in
  what happened.
- `app/` is the program around it: clap, tokio, hyper, rustls and tonic.
- `tests/` runs the library on concrete values.

## What is proved

Each function states its result or its error exactly, over sequences of characters and bytes.
Beyond that, proof functions state what holds of the library as a whole, among them:

- however early reading a response body, a file or the output of a command stops, a healthy verdict
  means that all of it meets what was asked (`lemma_verdict_is_sound`, `lemma_contents_are_sound`,
  `lemma_output_is_sound`);
- a value shown in a message stays on one line and tells which text it stands for
  (`lemma_value_stays_on_one_line`, `lemma_value_tells_texts_apart`);
- a success line holds no control character, and its fields can be read back
  (`lemma_success_is_one_line`, `lemma_field_reads_back`);
- a TCP target is healthy exactly when one of its addresses accepts a connection, and none is tried
  after that (`lemma_healthy_when_connected`);
- expanding an argument leaves plain text alone, takes `$$` for `$`, and puts values in as they are
  (`lemma_plain_text_stays`, `lemma_doubled_dollars_expand_back`,
  `lemma_value_goes_in_unchanged`);
- a request carries its host exactly once, and no header of its own frames the message
  (`lemma_request_headers`);
- the process ends with code 0 exactly on a healthy target that answered in time, and silence
  changes no code (`lemma_exit`).

What other crates compute (URLs, header names, PEM files, durations) is stated in the contracts of
a few small wrappers, each with a comment that says what it relies on.
