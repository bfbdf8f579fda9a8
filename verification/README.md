# termscreen

A verified model of a terminal screen.

A `Screen` holds a grid of cells, a cursor and the attributes of the text that
is printed next. It is edited by `Change` values and remembers them under
sequence numbers, so that a display elsewhere can be kept up to date: it asks
for the changes since the number that it has seen, and gets either those changes
or a stream that paints the screen from scratch. Streams of changes are also
computed from the differences between two regions of cells.

| module   | what it holds                                                  |
|----------|----------------------------------------------------------------|
| `color`  | colors                                                         |
| `cell`   | cells and their attributes                                     |
| `change` | changes and cursor positions                                   |
| `canvas` | the mathematical model of a display and of what a change does  |
| `paint`  | the stream that paints a display, and that it reproduces it    |
| `diff`   | the stream between two regions, and that it reproduces them    |
| `line`   | one row of a screen                                            |
| `screen` | the screen                                                     |
| `laws`   | what holds over several calls                                  |
| `rounds` | a display that follows a screen over several rounds            |

Contracts are stated over views: `Screen@` is a `ScreenView`, whose `canvas` is
what a display shows.
