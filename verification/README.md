# wene

wene is an image viewer and slideshow app for macOS. This crate is its logic,
verified with Verus: every function in `src/` is proved to meet its contract.
`app/` holds the windows, the threads and the disk operations around it.

## The library

The app is a state and operations on it. An operation changes the state and
lists what is to be done outside (`delegate::Effect`); the caller does that and
reports back with events. Each type has a model (its view), each operation says
exactly what it makes of the model, and what holds of several operations
together is proved in the modules of laws.

| Module | What it holds |
| --- | --- |
| `text`, `path` | text and paths by their characters and components |
| `cache` | a least-recently-used cache with a budget of bytes |
| `order` | natural order of names, and the orders of the grid |
| `scan` | the walk over a folder, and the sorted list it streams |
| `engine` | the decode queues and the events they report |
| `playlist` | the order of a slideshow: stepping, looping, shuffling |
| `transfer` | moving and copying files without replacing any |
| `grid`, `grid_laws` | the thumbnail grid: filter, selection, thumbnails |
| `slideshow`, `show` | the slide on screen, and a running show |
| `sidebar` | the folder tree and the favorites |
| `delegate`, `browse`, `events`, `menu` | the app: shows, browsing, events, menus |
| `e2e` | the steps of the end-to-end harness |
| `app_laws` | what holds of the app's operations together |

Names are compared by the `lexical-sort` crate. The functions that call it,
the lower case of a text and the clock that seeds the shuffle are the only ones
whose contracts are taken on trust; each says so where it stands.

## Numbers in names

The natural order reads two runs of digits side by side, as far as both go,
into numbers of 64 bits. Two names cannot be compared where comparing them gets
as far as digits that do not fit. Sorting then says that it could
not be done and leaves things as they are, and a scan leaves out the second of
the two images and says so.

## Layout

- `src/` — the verified library
- `tests/` — its tests
- `app/` — the macOS app around it
