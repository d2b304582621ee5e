# ytplay

Turns a piano recording into a player-piano roll that can be watched and heard: paste a link, type
a search or name a MIDI file, and the notes scroll down as punched slots onto a tracker bar above
a keyboard that plays along.

`src/` is the library, verified with Verus:

- `midi`, `chunks`, `score`, `order`, `notes`, `tracks`, `ticks`: from the bytes of a MIDI file to notes
  with times, honouring the tempo map.
- `player`: where the roll stands, which keys are down, when the roll is over, the clock.
- `keyboard`, `faces`: the layout of the window, the key under a point, the faces of the keys.
- `paper`, `roll`: the paper, its rules and title, and the slots that are punched for notes.
- `panels`: the search field, the end panel, their buttons, and the boards of the case.
- `session`: the course of a session, frame by frame.
- `transcribe`: the steps of a job, from a query to MIDI bytes.
- `piano`, `sequencer`, `audio`: the synthesizer, the keyboard that the mouse plays, the sequencer
  that plays the roll, and blocks of sound.
- `picture`, `jpeg`, `text`: photographs and textures, and the handling of text.

Times are whole nanoseconds. Lengths on the screen are whole numbers of 1/26,000,000 pixel, in
which every length of the layout comes out exact.

`app/` is the program around it: the window, the audio device, the commands that are run and the
painting. It wants `yt-dlp` and `transkun` installed, and `soundfont.sf2` under
`%USERPROFILE%\ytplay`. With a directory `assets` beside the program, the veneer picture
(`black_walnut_veneer_02_diff_2k.jpg`) and the window's `icon.png` are taken from there.
