# FastFs

File commands (`ls`, `touch`, `find`, `cat`, `sed`) and a text search (`rg`) that a shell runs in its
own process. The library in `src/`, proved with Verus, holds what the commands compute and decide: how
requests, patterns and ignore files are read, what a walk finds, what a search prints and in which order.
The crate in `app/` reads the file system, runs the threads, asks the environment and talks to the host.

- requests and events: `request`, `wire`, `emitter`, `cancellation`, `report`
- file commands: `arguments`, `list`, `list_laws`, `order`, `touch`, `find`, `find_laws`, `wildcard`,
  `lines`
- walking directories: `path`, `glob`, `glob_engine`, `glob_laws`, `braces`, `user_globs`, `ignore`,
  `git`, `context`, `walk`, `expand`, `identity_set`, `directory`, `roots`, `queue`
- patterns: `engine`, `tree`, `written`, `pattern`, `literals`, `native_matcher`
- search: `search_args`, `search`, `scanner`, `sink`, `rg`
- lists of files that are kept, and drives: `search_cache`, `cache_state`, `search_platform`

Where a command needs something of the host, a state machine says what comes next and takes what came of
it: `ListMachine`, `FindMachine`, `TouchOrder`, `DirectoryExpansion`, `WorkQueue`, `Worker`, `Emitter`,
`StreamingSearchSink`, `RgMachine`.
