# envforge

Create and manage reproducible development environments from YAML profiles
(`~/.envforge/<name>.yaml`): install the profile's packages, run its setup
commands, and enter a subshell with its variables and a marked prompt, or
print `export` lines for the current shell.

- `src/` is the verified library: profiles and their variables
  (`config`), package managers (`installer`), shell command handling
  (`executor`), activation scripts (`environment`), the command line types
  (`cli`) and string helpers (`text`).
- `app/` is the program: argument parsing, file system and process work,
  YAML parsing and logging.
- `tests/` exercises the library on concrete values.
