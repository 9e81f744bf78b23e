# Simple

An interpreter for Simple, a small educational programming language whose
programs show, step by step, how a computer evaluates them: expressions are
written in reverse Polish notation and evaluated on a visible stack, and
variables live in a memory that can be listed, referenced by address and
inspected from a debug menu.

The interpreter's logic is a library verified with Verus (`src/`); the
program around it (`app/`) reads files and the terminal, prints, and carries
out the binary64 arithmetic that the library leaves to it.

## Layout

- `text`, `float`, `types`, `memory`, `display`: texts, numbers held as
  binary64 bit patterns, values, the memory of variables and functions, and
  how values are written out.
- `compute`: expression evaluation on a stack, one token at a time.
- `sequence`: reading, setting and deleting elements of lists and texts.
- `statement`, `executor`, `machine`: telling statements apart, collecting
  blocks, and running one statement as a machine that asks the host for
  evaluations, nested blocks, modules and renderings.
- `block`: running a block line by line, scripts, the interactive prompt and
  the debug menu.
- `stdlib`, `calls`: the standard functions, calls of user functions, and
  the memory listing.
- `checker`: the syntax check.
- `laws`: properties that hold across operations.

## Usage

    simple run program.sim        # run silently
    simple debug program.sim      # run with commentary and the debug menu
    simple check program.sim      # check the syntax
    simple interactive            # read and run lines from the terminal
