# syrinx

Live dictation: audio from microphones, outputs or single applications goes to
a speech-to-text server, and the words that come back are typed at the cursor,
kept as a transcript, or both.

`src/` is the library, written in Verus. It holds what the programs decide:

- `audio` -- which sources there are, which one is chosen, how several are
  mixed, and how an application's ports are linked into a capture
- `client` -- sessions, transcripts and how they are laid out and saved, the
  daemon and its requests, the tray, hotkeys, configuration and the command line
- `parakeet` -- the headless typer and the small window
- `server` -- loading a model only where it leaves room for others, and turning
  frames into chunks and chunks into messages
- `proto` -- the messages and the sample encoding both sides share
- `json`, `toml_doc`, `text`, `paths`, `order` -- what the rest is built on

Samples and levels are `f32` bit patterns there, and moments are nanoseconds:
the library moves samples about and never computes with them.

`app/` is the program around it: processes, sockets, devices, windows and the
arithmetic on samples. One executable answers to `syrinx`, `parakeet`,
`parakeet-type` and `parakeet-gui`, by the name it is started under.
