# livetty

A web app for driving a remote machine: edit files and run terminals, all in the browser. Terminals
keep running when the browser is gone, until they are closed. A command line client drives the same
terminals from a shell.

## Layout

`src/` is the library, written and proved in Verus. It decides; it opens no file, no socket and no
device.

| Module | What it holds |
|---|---|
| `text`, `paths`, `order` | texts, Unix paths, the order of directory entries |
| `json`, `headers` | what the library knows of `serde_json` values and HTTP headers |
| `frame` | frames of the wire protocol, and the slicing of long output |
| `keys` | escapes and key names of the command line client |
| `callbacks`, `screen` | what a program tells its terminal, and the replay of a screen |
| `tail` | where output breaks off within a control sequence or a character |
| `term`, `manager` | events, and the terminals with those who watch them |
| `ws` | connections: who may connect, and what operations do |
| `auth` | sessions, logins, and the guard of every request |
| `reply`, `files` | answers, and requests on files as jobs that go on in steps |
| `config` | settings, the local socket, and pages |
| `client` | what each command sends, and what it makes of the answers |

`app/` is the program around the library: network, disk, terminal devices, clock, command line. Pages
come from the frontend's build output in `web/dist`.

`tests/` runs the library on concrete values.

## What is proved

Functions say in `requires` and `ensures` what they take and what they give. Public proof functions
state what holds across functions. Among them:

- what is written into a frame, a list of slices, a session file or a file name in a header is read
  back (`frame_reads_back`, `slices_rejoin`, `sessions_reload`, `percent_reads_back`);
- a watcher gets everything that a terminal writes after it attached, once (`watcher_gets_everything`),
  no control sequence is split for it (`watcher_is_in_step`), and a listed terminal stays listed until
  it is killed (`listed_until_killed`);
- a snapshot that a client prints is the terminal's replay, and it ends (`snapshot_arrives`,
  `snapshot_ends`, `output_ends_snapshot`);
- a file is replaced in one go, in its own directory, and never over someone else's change
  (`saving_is_atomic`, `temp_beside_target`, `conflict_writes_nothing`);
- the settings that a first run writes are those that the next start reads, and that one writes nothing
  (`settings_read_back`, `second_start_keeps_settings`, `settings_default`);
- a login lasts for thirty days, ends with a logout, and is closed after ten failures within ten
  minutes (`login_admits`, `logout_ends`, `failures_close_login`, `window_counts`, `closed_login`,
  `login_reopens`).

What outside crates do is stated in the contracts of small functions marked
`#[verifier::external_body]`; the comment above each names the outside function and says what is
claimed of it.
