# minishell

A small interactive shell. The library in `src/` is verified with Verus; the
program around it is in `app/`.

- `text`: white space, and the string operations that the rest needs
- `token`, `grammar`: tokens, and what the tokens of a command line are
- `variables`: variables and the words that refer to them
- `command`: commands, and what the tokens of a line ask for
- `parser`: cutting a line into tokens and making a command of them
- `shell`: what the shell does with a line, a command, a fork and a child
- `cd`: changing the directory
- `combinators`: parsers that are put together from smaller ones
- `laws`: what holds of every command line
