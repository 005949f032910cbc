# RecupeGhost

Recovers deleted photos, videos, audio and documents from disks and raw images. It reads the source
byte by byte, recognises files by their signatures and works out where each of them ends, without
the help of a file system. A disk that is failing can be copied to an image first.

The rules of the program are a library written in Verus: what every function does is stated in its
contract and proved. The program around it reads disks, writes files and talks to the user.

## Layout

    src/                the verified library
      signatures/       the known formats, and how their bytes show where a file ends
      scanner/          looking for files: segments, buffers, the search for ends, what is kept
      recovery.rs       saving what was found
      clone.rs          copying a failing disk to an image
      drives/           what the systems say of their disks
      ui/               the menus, and the warning against saving on the disk being read
      wizard.rs         the state of the window
      cli.rs            the decisions of the command line
      updater.rs        comparing versions
      util.rs text.rs parse.rs paths.rs bytes.rs   sizes, texts, paths and numbers
    tests/              tests of the library
    app/                the program: terminal, window, disks, threads

## What is proved

Functions that would read, write or ask are written as steps: the library says what to read next or
what to ask, and takes what came back. So the scan of a source, the search for the end of a file,
the saving of files, the copy of a disk and the course of the menus are verified for every answer
that the outside can give.

What holds across functions is stated in the proof functions whose names start with `law_`. Among
them: the segments of a scan tile the source, nothing that opens in a buffer is passed over, the
bytes by which a file is recognised are never split between two blocks or two segments, the result
does not depend on the number of threads for formats that fixed bytes, a footer or boxes tell, no
file is reported twice, walking a file in memory and in pieces gives the same end, a file is dropped
only where another one holds it, an image has every byte of the sectors that can be read and zeros
elsewhere, and the consent to a risk holds for one source and one folder only.

Of the standard library, one function is taken on trust: `String::push`, in `src/text.rs`.

## Use

    recupe_ghost                                   menus
    recupe_ghost disco.img                         look for everything
    recupe_ghost disco.img --fotos -o recuperados  photos only, to a folder
    recupe_ghost_gui                               window

The program opens the window when it is called by the last of these names.
